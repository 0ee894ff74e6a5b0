//! C#: `using` directives resolved to source files, with or without the
//! projects' .csproj files.
use vstd::prelude::*;
use crate::model::{canon_spec, dir_parent, dir_parent_spec, CanonicalPath, FileSet, TextMap, WorkspaceInfo, first_direct_child};
use crate::parser::config::csproj::{CsprojConfig, PackageRef, ProjectRef};
use crate::parser::config::{find_nearest_csproj, nearest_value};
use crate::parser::java::{decl_name, trim_end_semis};
use crate::parser::traits::{
    exports_view, imports_view, strings_view, symbols_view, ExportView, ImportKind, ImportResolver, ImportView, RawExport,
    RawImport, SymbolDef, SymbolKind, SymbolView, Visibility,
};
use crate::parser::typescript::{clone_opt_string, from_dir, line_sig, line_sig_exec, opt_str, span_exec, span_of};
use crate::syntax::{first_child_of_kind, first_some, flat_map, lemma_first_some_step, lemma_flat_map_step, SyntaxTree};
use crate::text::{
    before_char, before_first, chars_of, find_char, find_char_spec, lines, lines_spec, replace_char, replace_char_spec,
    strip_prefix, string_of, trim, trim_spec, trim_start, trim_start_spec, views,
};

verus! {

/// The first dot-separated segment of a namespace.
pub open spec fn first_segment(ns: Seq<char>) -> Seq<char> {
    before_char(ns, '.')
}

/// Whether a namespace belongs to the platform (`System`, `Microsoft`,
/// `Windows`, `Mono`).
pub open spec fn is_framework_ns(ns: Seq<char>) -> bool {
    let f = first_segment(ns);
    f == "System"@ || f == "Microsoft"@ || f == "Windows"@ || f == "Mono"@
}

/// The names of the packages that the projects reference, in order.
pub open spec fn package_names(es: Seq<(String, CsprojConfig)>) -> Seq<Seq<char>>
    decreases es.len(),
{
    if es.len() == 0 {
        Seq::empty()
    } else {
        package_names(es.drop_last()) + es.last().1.package_references@.map_values(|p: PackageRef| p.name@)
    }
}

/// `s` without one leading dot.
pub open spec fn strip_dot(s: Seq<char>) -> Seq<char> {
    if s.len() > 0 && s[0] == '.' {
        s.drop_first()
    } else {
        s
    }
}

/// What is left of `ns` past the root namespace `root` (and one dot), when
/// `ns` starts with `root` and something is left.
pub open spec fn past_root(ns: Seq<char>, root: Seq<char>) -> Option<Seq<char>> {
    if root.is_prefix_of(ns) {
        let s = strip_dot(ns.skip(root.len() as int));
        if s.len() > 0 {
            Some(s)
        } else {
            None
        }
    } else {
        None
    }
}

/// The source file that the dotted name `rest` stands for in project directory `dir`.
pub open spec fn cs_candidate(dir: Seq<char>, rest: Seq<char>) -> Seq<char> {
    canon_spec(dir + "/"@ + replace_char_spec(rest, '.', '/') + ".cs"@)
}

/// `c` if it is a known file.
pub open spec fn if_known(c: Seq<char>, files: Seq<Seq<char>>) -> Option<Seq<char>> {
    if files.contains(c) {
        Some(c)
    } else {
        None
    }
}

/// The file under a project's root namespace, if the project has one.
pub open spec fn root_hit(config: CsprojConfig, ns: Seq<char>, files: Seq<Seq<char>>) -> Option<Seq<char>> {
    match config.root_namespace {
        Some(root) => match past_root(ns, root@) {
            Some(s) => if_known(cs_candidate(config.project_dir@, s), files),
            None => None,
        },
        None => None,
    }
}

/// The directory of a referenced project file.
pub open spec fn ref_dir(p: Seq<char>) -> Seq<char> {
    match dir_parent_spec(p) {
        Some(d) => d,
        None => Seq::empty(),
    }
}

/// The file found through one project reference.
pub open spec fn ref_hit(r: ProjectRef, configs: &TextMap<CsprojConfig>, ns: Seq<char>, files: Seq<Seq<char>>) -> Option<Seq<char>> {
    match r.resolved_path {
        Some(rp) => match configs.spec_get(ref_dir(rp@)) {
            Some(rc) => root_hit(rc, ns, files),
            None => None,
        },
        None => None,
    }
}

/// The file found through the first project reference that finds one.
pub open spec fn refs_hit(refs: Seq<ProjectRef>, configs: &TextMap<CsprojConfig>, ns: Seq<char>, files: Seq<Seq<char>>) -> Option<Seq<char>>
    decreases refs.len(),
{
    if refs.len() == 0 {
        None
    } else if ref_hit(refs[0], configs, ns, files) is Some {
        ref_hit(refs[0], configs, ns, files)
    } else {
        refs_hit(refs.drop_first(), configs, ns, files)
    }
}

/// Resolution without project files: the namespace as a file path, or the
/// first `.cs` file directly in the namespace as a directory.
pub open spec fn cs_naive(ns: Seq<char>, files: Seq<Seq<char>>) -> Option<Seq<char>> {
    let p = replace_char_spec(ns, '.', '/');
    let direct = canon_spec(p + ".cs"@);
    if files.contains(direct) {
        Some(direct)
    } else {
        first_direct_child(files, p + "/"@, ".cs"@)
    }
}

/// Resolution with project files: in the nearest project past its root
/// namespace, then in it by the full namespace, then in the projects it
/// references, and at last without project files.
pub open spec fn cs_with_config(configs: &TextMap<CsprojConfig>, ns: Seq<char>, from: Seq<char>, files: Seq<Seq<char>>) -> Option<Seq<char>> {
    match nearest_value(configs, from_dir(from)) {
        Some(c) => if root_hit(c, ns, files) is Some {
            root_hit(c, ns, files)
        } else if files.contains(cs_candidate(c.project_dir@, ns)) {
            Some(cs_candidate(c.project_dir@, ns))
        } else if refs_hit(c.project_references@, configs, ns, files) is Some {
            refs_hit(c.project_references@, configs, ns, files)
        } else {
            cs_naive(ns, files)
        },
        None => cs_naive(ns, files),
    }
}

/// What the C# resolver makes of a `using`: nothing for platform
/// namespaces and referenced packages, else the file it names.
pub open spec fn cs_resolve_spec(
    configs: &TextMap<CsprojConfig>,
    packages: Seq<Seq<char>>,
    ns: Seq<char>,
    from: Seq<char>,
    files: Seq<Seq<char>>,
) -> Option<Seq<char>> {
    if is_framework_ns(ns) {
        None
    } else if packages.contains(first_segment(ns)) {
        None
    } else if configs.spec_entries().len() == 0 {
        cs_naive(ns, files)
    } else {
        cs_with_config(configs, ns, from, files)
    }
}

/// Resolver of C# `using` directives.
#[derive(Debug)]
pub struct CSharpResolver {
    /// .csproj configs, keyed by project-relative directory.
    pub csproj_configs: TextMap<CsprojConfig>,
    /// The names of the packages the projects reference.
    pub known_packages: Vec<String>,
}

/// `Some(p)` when `c` is a known file.
fn known_candidate(c: Vec<char>, files: &FileSet) -> (r: Option<CanonicalPath>)
    ensures
        match r {
            Some(p) => if_known(canon_spec(c@), files@) == Some(p@),
            None => if_known(canon_spec(c@), files@) is None,
        },
{
    let p = CanonicalPath::from_chars(&c);
    if files.contains(&p) {
        Some(p)
    } else {
        None
    }
}

/// The text `dir/rest-with-slashes.cs`, before canonicalization.
fn candidate_text(dir: &str, rest: &Vec<char>) -> (r: Vec<char>)
    ensures
        r@ == dir@ + "/"@ + replace_char_spec(rest@, '.', '/') + ".cs"@,
{
    let mut v = chars_of(dir);
    v.push('/');
    let tail = replace_char(rest, '.', '/');
    crate::text::push_all(&mut v, &tail);
    crate::text::push_all(&mut v, &chars_of(".cs"));
    proof {
        reveal_strlit("/");
    }
    assert(v@ =~= dir@ + "/"@ + replace_char_spec(rest@, '.', '/') + ".cs"@);
    v
}

/// `s` without one leading dot.
fn strip_dot_exec(s: Vec<char>) -> (r: Vec<char>)
    ensures
        r@ == strip_dot(s@),
{
    if s.len() > 0 && s[0] == '.' {
        crate::text::slice(&s, 1, s.len())
    } else {
        s
    }
}

/// The file under a project's root namespace.
fn root_hit_exec(config: &CsprojConfig, ns: &Vec<char>, files: &FileSet) -> (r: Option<CanonicalPath>)
    ensures
        match r {
            Some(p) => root_hit(*config, ns@, files@) == Some(p@),
            None => root_hit(*config, ns@, files@) is None,
        },
{
    match &config.root_namespace {
        Some(root) => {
            let rv = chars_of(root.as_str());
            match strip_prefix(ns, &rv) {
                Some(rest) => {
                    let s = strip_dot_exec(rest);
                    if s.len() > 0 {
                        let c = candidate_text(config.project_dir.as_str(), &s);
                        known_candidate(c, files)
                    } else {
                        None
                    }
                },
                None => None,
            }
        },
        None => None,
    }
}

/// Naive resolution.
fn naive_exec(ns: &Vec<char>, files: &FileSet) -> (r: Option<CanonicalPath>)
    ensures
        match r {
            Some(p) => cs_naive(ns@, files@) == Some(p@),
            None => cs_naive(ns@, files@) is None,
        },
{
    let p = replace_char(ns, '.', '/');
    let mut direct = p.clone();
    crate::text::push_all(&mut direct, &chars_of(".cs"));
    let d = CanonicalPath::from_chars(&direct);
    if files.contains(&d) {
        return Some(d);
    }
    let mut prefix = p.clone();
    prefix.push('/');
    proof {
        reveal_strlit("/");
    }
    assert(prefix@ =~= p@ + "/"@);
    assert(direct@ =~= p@ + ".cs"@);
    files.find_direct_child(&prefix, &chars_of(".cs"))
}

impl CSharpResolver {
    /// A resolver without project files.
    pub fn new() -> (r: CSharpResolver)
        ensures
            r.csproj_configs.spec_entries().len() == 0,
            r.known_packages@.len() == 0,
    {
        CSharpResolver { csproj_configs: TextMap::new(), known_packages: Vec::new() }
    }

    /// The resolver with these project files, which also learns the names
    /// of the packages they reference.
    pub fn with_csproj_configs(self, configs: TextMap<CsprojConfig>) -> (r: CSharpResolver)
        ensures
            r.csproj_configs == configs,
            strings_view(r.known_packages@) == strings_view(self.known_packages@) + package_names(configs.spec_entries()),
    {
        let mut known = self.known_packages;
        let ghost base = strings_view(known@);
        let es = configs.entries();
        let ghost e = es@;
        let mut i: usize = 0;
        while i < es.len()
            invariant
                0 <= i <= e.len(),
                e == es@,
                strings_view(known@) == base + package_names(e.take(i as int)),
            decreases es.len() - i,
        {
            let refs = &es[i].1.package_references;
            let ghost before = strings_view(known@);
            let ghost names = refs@.map_values(|p: PackageRef| p.name@);
            let mut j: usize = 0;
            while j < refs.len()
                invariant
                    0 <= j <= refs@.len(),
                    names == refs@.map_values(|p: PackageRef| p.name@),
                    strings_view(known@) == before + names.take(j as int),
                decreases refs.len() - j,
            {
                let ghost k0 = known@;
                known.push(refs[j].name.clone());
                assert(known@ == k0.push(refs@[j as int].name));
                assert(strings_view(known@) =~= strings_view(k0).push(refs@[j as int].name@));
                assert(names.take(j + 1) =~= names.take(j as int).push(refs@[j as int].name@));
                assert(strings_view(known@) =~= before + names.take(j + 1));
                j += 1;
            }
            assert(names.take(refs@.len() as int) =~= names);
            assert(e.take(i + 1).drop_last() =~= e.take(i as int));
            assert(strings_view(known@) =~= base + package_names(e.take(i + 1)));
            i += 1;
        }
        assert(e.take(e.len() as int) =~= e);
        CSharpResolver { csproj_configs: configs, known_packages: known }
    }

    /// Whether `ns` belongs to the platform.
    pub fn is_framework_namespace(&self, ns: &str) -> (r: bool)
        ensures
            r == is_framework_ns(ns@),
    {
        let f = before_first(&chars_of(ns), '.');
        proof {
            reveal_strlit("System");
            reveal_strlit("Microsoft");
            reveal_strlit("Windows");
            reveal_strlit("Mono");
        }
        crate::text::eq(&f, &chars_of("System")) || crate::text::eq(&f, &chars_of("Microsoft"))
            || crate::text::eq(&f, &chars_of("Windows")) || crate::text::eq(&f, &chars_of("Mono"))
    }

    /// Whether the first segment of `ns` is a referenced package.
    pub fn is_nuget_package(&self, ns: &str) -> (r: bool)
        ensures
            r == strings_view(self.known_packages@).contains(first_segment(ns@)),
    {
        let f = before_first(&chars_of(ns), '.');
        let mut i: usize = 0;
        while i < self.known_packages.len()
            invariant
                0 <= i <= self.known_packages@.len(),
                f@ == first_segment(ns@),
                forall|k: int| 0 <= k < i ==> strings_view(self.known_packages@)[k] != f@,
            decreases self.known_packages.len() - i,
        {
            if crate::text::eq(&chars_of(self.known_packages[i].as_str()), &f) {
                assert(strings_view(self.known_packages@)[i as int] == f@);
                assert(strings_view(self.known_packages@).contains(f@));
                return true;
            }
            i += 1;
        }
        false
    }

    /// Resolution without project files.
    pub fn resolve_naive(&self, ns: &str, known_files: &FileSet) -> (r: Option<CanonicalPath>)
        ensures
            match r {
                Some(p) => cs_naive(ns@, known_files@) == Some(p@),
                None => cs_naive(ns@, known_files@) is None,
            },
    {
        naive_exec(&chars_of(ns), known_files)
    }

    /// Resolution with project files.
    pub fn resolve_with_config(&self, ns: &str, from_file: &CanonicalPath, known_files: &FileSet) -> (r: Option<CanonicalPath>)
        ensures
            match r {
                Some(p) => cs_with_config(&self.csproj_configs, ns@, from_file@, known_files@) == Some(p@),
                None => cs_with_config(&self.csproj_configs, ns@, from_file@, known_files@) is None,
            },
    {
        let nv = chars_of(ns);
        let dir = match from_file.parent() {
            Some(d) => d,
            None => Vec::new(),
        };
        let ds = string_of(&dir);
        let config = match find_nearest_csproj(ds.as_str(), &self.csproj_configs) {
            Some(c) => c,
            None => return naive_exec(&nv, known_files),
        };
        let a = root_hit_exec(config, &nv, known_files);
        if a.is_some() {
            return a;
        }
        let c = candidate_text(config.project_dir.as_str(), &nv);
        let b = known_candidate(c, known_files);
        if b.is_some() {
            return b;
        }
        let refs = &config.project_references;
        let ghost rs = refs@;
        assert(rs.skip(0) =~= rs);
        let mut i: usize = 0;
        while i < refs.len()
            invariant
                0 <= i <= rs.len(),
                rs == refs@,
                rs == config.project_references@,
                nv@ == ns@,
                nearest_value(&self.csproj_configs, from_dir(from_file@)) == Some(*config),
                root_hit(*config, nv@, known_files@) is None,
                !known_files@.contains(cs_candidate(config.project_dir@, nv@)),
                refs_hit(rs, &self.csproj_configs, nv@, known_files@) == refs_hit(rs.skip(i as int), &self.csproj_configs, nv@, known_files@),
            decreases refs.len() - i,
        {
            assert(rs.skip(i as int)[0] == rs[i as int]);
            assert(rs.skip(i as int).drop_first() =~= rs.skip(i + 1));
            match &refs[i].resolved_path {
                Some(rp) => {
                    let rd = match dir_parent(&chars_of(rp.as_str())) {
                        Some(d) => d,
                        None => Vec::new(),
                    };
                    match self.csproj_configs.get(&rd) {
                        Some(rc) => {
                            assert(ref_hit(rs[i as int], &self.csproj_configs, nv@, known_files@) == root_hit(*rc, nv@, known_files@));
                            let h = root_hit_exec(rc, &nv, known_files);
                            if h.is_some() {
                                return h;
                            }
                        },
                        None => {},
                    }
                },
                None => {},
            }
            i += 1;
        }
        naive_exec(&nv, known_files)
    }
}

impl ImportResolver for CSharpResolver {
    fn resolve(
        &self,
        import: &RawImport,
        from_file: &CanonicalPath,
        known_files: &FileSet,
        _workspace: Option<&WorkspaceInfo>,
    ) -> (r: Option<CanonicalPath>)
        ensures
            match r {
                Some(p) => cs_resolve_spec(&self.csproj_configs, strings_view(self.known_packages@), import.path@, from_file@, known_files@) == Some(p@),
                None => cs_resolve_spec(&self.csproj_configs, strings_view(self.known_packages@), import.path@, from_file@, known_files@) is None,
            },
    {
        let ns = import.path.as_str();
        if self.is_framework_namespace(ns) {
            return None;
        }
        if self.is_nuget_package(ns) {
            return None;
        }
        if self.csproj_configs.is_empty() {
            return self.resolve_naive(ns, known_files);
        }
        self.resolve_with_config(ns, from_file, known_files)
    }
}


// ---------------------------------------------------------------------------
// Razor files
// ---------------------------------------------------------------------------

/// The first line that is not blank.
pub open spec fn first_nonblank(ls: Seq<Seq<char>>) -> Option<Seq<char>>
    decreases ls.len(),
{
    if ls.len() == 0 {
        None
    } else if trim_spec(ls[0]).len() > 0 {
        Some(ls[0])
    } else {
        first_nonblank(ls.drop_first())
    }
}

/// Whether a source is a Razor file: its first non-blank line starts with `@`.
pub open spec fn is_razor(src: Seq<char>) -> bool {
    match first_nonblank(lines_spec(src)) {
        Some(l) => trim_start_spec(l).len() > 0 && trim_start_spec(l)[0] == '@',
        None => false,
    }
}

/// An import of `path` with no names.
pub open spec fn cs_import(path: Seq<char>, symbols: Seq<Seq<char>>) -> ImportView {
    ImportView { path, symbols, is_type_only: false, kind: ImportKind::Regular }
}

/// `[import of p]` unless `p` is empty.
pub open spec fn nonempty_import(p: Seq<char>) -> Seq<ImportView> {
    if p.len() > 0 {
        seq![cs_import(p, Seq::empty())]
    } else {
        Seq::empty()
    }
}

/// The import one line of a Razor file gives: `@using` a namespace,
/// `@inject` a service type, `@inherits` a base type.
pub open spec fn razor_line(line: Seq<char>) -> Seq<ImportView> {
    let tr = trim_spec(line);
    if "@using "@.is_prefix_of(tr) {
        nonempty_import(trim_end_semis(trim_spec(tr.skip("@using "@.len() as int))))
    } else if "@inject "@.is_prefix_of(tr) {
        nonempty_import(before_char(trim_spec(tr.skip("@inject "@.len() as int)), ' '))
    } else if "@inherits "@.is_prefix_of(tr) {
        nonempty_import(trim_spec(tr.skip("@inherits "@.len() as int)))
    } else {
        Seq::empty()
    }
}

/// `razor_line` as a function.
pub open spec fn razor_line_f() -> spec_fn(Seq<char>) -> Seq<ImportView> {
    |l: Seq<char>| razor_line(l)
}

/// The imports of a Razor file, line by line.
pub open spec fn razor_imports(src: Seq<char>) -> Seq<ImportView> {
    flat_map(lines_spec(src), razor_line_f())
}

// ---------------------------------------------------------------------------
// `using` directives
// ---------------------------------------------------------------------------

/// The import a `using` directive's text gives: trimmed, without trailing
/// semicolons, past `global` and `using`; `Alias = Namespace` names the
/// alias; `static` marks a static import.
pub open spec fn using_import(text: Seq<char>) -> Seq<ImportView> {
    let t0 = trim_spec(text);
    if !crate::text::contains_spec(t0, "using"@) {
        Seq::empty()
    } else {
        let t1 = trim_spec(trim_end_semis(t0));
        let t2 = if "global"@.is_prefix_of(t1) {
            trim_spec(t1.skip("global"@.len() as int))
        } else {
            t1
        };
        if !"using"@.is_prefix_of(t2) {
            Seq::empty()
        } else {
            let t3 = trim_spec(t2.skip("using"@.len() as int));
            let st = "static"@.is_prefix_of(t3);
            let t4 = if st {
                trim_spec(t3.skip("static"@.len() as int))
            } else {
                t3
            };
            let (path, symbols) = match find_char_spec(t4, '=') {
                Some(i) => (trim_spec(t4.skip(i + 1)), seq![trim_spec(t4.take(i))]),
                None => if st {
                    (t4, seq!["static"@])
                } else {
                    (t4, Seq::empty())
                },
            };
            if path.len() == 0 {
                Seq::empty()
            } else {
                seq![cs_import(path, symbols)]
            }
        }
    }
}

/// Whether a node holds declarations to search.
pub open spec fn is_cs_container(k: Seq<char>) -> bool {
    k == "namespace_declaration"@ || k == "file_scoped_namespace_declaration"@ || k == "declaration_list"@
}

/// The imports of child `c` of `n`.
pub open spec fn using_child(t: &SyntaxTree, n: int, c: int) -> Seq<ImportView>
    decreases t.size() - n, 0int,
{
    let k = t.kind_of(c);
    if k == "using_directive"@ {
        using_import(t.text_at(c))
    } else if k == "global_statement"@ || is_cs_container(k) {
        if n < c < t.size() {
            usings_of(t, c, t.children_of(c).len() as int)
        } else {
            Seq::empty()
        }
    } else {
        Seq::empty()
    }
}

/// The imports of the first `k` children of `n`.
pub open spec fn usings_of(t: &SyntaxTree, n: int, k: int) -> Seq<ImportView>
    decreases t.size() - n, k + 1,
{
    let ch = t.children_of(n);
    if k <= 0 || k > ch.len() {
        Seq::empty()
    } else {
        usings_of(t, n, k - 1) + using_child(t, n, ch[k - 1] as int)
    }
}

/// The imports of a C# file: those of a Razor file, else its `using`
/// directives, also inside namespaces.
pub open spec fn cs_imports_spec(t: &SyntaxTree) -> Seq<ImportView> {
    let src = crate::syntax::text_of(t.source(), 0, t.source().len() as int);
    if is_razor(src) {
        razor_imports(src)
    } else {
        usings_of(t, 0, t.children_of(0).len() as int)
    }
}

// ---------------------------------------------------------------------------
// Declarations
// ---------------------------------------------------------------------------

/// Whether `n` has a modifier child with the text `m`.
pub open spec fn cs_has_modifier(t: &SyntaxTree, n: int, m: Seq<char>) -> bool {
    exists|j: int|
        0 <= j < t.children_of(n).len() && (t.kind_of(#[trigger] t.children_of(n)[j] as int) == "modifier"@
            || t.kind_of(t.children_of(n)[j] as int) == m) && t.text_at(t.children_of(n)[j] as int) == m
}

/// Whether `k` is a type declaration that can be exported.
pub open spec fn is_cs_type_decl(k: Seq<char>) -> bool {
    k == "class_declaration"@ || k == "interface_declaration"@ || k == "struct_declaration"@ || k == "enum_declaration"@
        || k == "record_declaration"@
}

/// The exports of child `c` of `n`.
pub open spec fn cs_export_child(t: &SyntaxTree, n: int, c: int) -> Seq<ExportView>
    decreases t.size() - n, 0int,
{
    let k = t.kind_of(c);
    if is_cs_type_decl(k) {
        if cs_has_modifier(t, c, "public"@) {
            match decl_name(t, c) {
                Some(name) => seq![ExportView { name, is_re_export: false, source: None }],
                None => Seq::empty(),
            }
        } else {
            Seq::empty()
        }
    } else if is_cs_container(k) {
        if n < c < t.size() {
            cs_exports_of(t, c, t.children_of(c).len() as int)
        } else {
            Seq::empty()
        }
    } else {
        Seq::empty()
    }
}

/// The exports of the first `k` children of `n`.
pub open spec fn cs_exports_of(t: &SyntaxTree, n: int, k: int) -> Seq<ExportView>
    decreases t.size() - n, k + 1,
{
    let ch = t.children_of(n);
    if k <= 0 || k > ch.len() {
        Seq::empty()
    } else {
        cs_exports_of(t, n, k - 1) + cs_export_child(t, n, ch[k - 1] as int)
    }
}

/// The exports of a C# file: its public type declarations, also inside namespaces.
pub open spec fn cs_exports_spec(t: &SyntaxTree) -> Seq<ExportView> {
    cs_exports_of(t, 0, t.children_of(0).len() as int)
}

/// Whether a node kind can carry an access modifier.
pub open spec fn is_access_kind(k: Seq<char>) -> bool {
    k == "modifier"@ || k == "public"@ || k == "private"@ || k == "protected"@ || k == "internal"@
}

/// The visibility one modifier child gives.
pub open spec fn cs_vis_f(t: &SyntaxTree) -> spec_fn(usize) -> Option<Visibility> {
    |c: usize|
        if is_access_kind(t.kind_of(c as int)) {
            let x = t.text_at(c as int);
            if x == "public"@ {
                Some(Visibility::Public)
            } else if x == "internal"@ {
                Some(Visibility::Internal)
            } else if x == "private"@ || x == "protected"@ {
                Some(Visibility::Private)
            } else {
                None
            }
        } else {
            None
        }
}

/// The visibility of a declaration: that of its first access modifier,
/// internal without one.
pub open spec fn cs_vis(t: &SyntaxTree, n: int) -> Visibility {
    match first_some(t.children_of(n), cs_vis_f(t)) {
        Some(v) => v,
        None => Visibility::Internal,
    }
}

/// A symbol of declaration `c`.
pub open spec fn cs_symbol(t: &SyntaxTree, name: Seq<char>, kind: SymbolKind, c: int, parent: Option<Seq<char>>) -> SymbolView {
    SymbolView { name, kind, visibility: cs_vis(t, c), span: span_of(t, c), signature: line_sig(t, c), parent }
}

/// The symbol of a type declaration, when it has a name.
pub open spec fn cs_type_symbol(t: &SyntaxTree, c: int, kind: SymbolKind, parent: Option<Seq<char>>) -> Seq<SymbolView> {
    match decl_name(t, c) {
        Some(name) => seq![cs_symbol(t, name, kind, c, parent)],
        None => Seq::empty(),
    }
}

/// The constant one declarator of field `f` declares.
pub open spec fn cs_declarator(t: &SyntaxTree, f: int, d: int, parent: Option<Seq<char>>) -> Seq<SymbolView> {
    if t.kind_of(d) == "variable_declarator"@ {
        match t.field_child(d, "name"@) {
            Some(nn) => match t.text_opt_at(nn) {
                Some(name) => seq![cs_symbol(t, name, SymbolKind::Const, f, parent)],
                None => Seq::empty(),
            },
            None => Seq::empty(),
        }
    } else {
        Seq::empty()
    }
}

/// `cs_declarator` as a function of the declarator.
pub open spec fn cs_declarator_f(t: &SyntaxTree, f: int, parent: Option<Seq<char>>) -> spec_fn(usize) -> Seq<SymbolView> {
    |d: usize| cs_declarator(t, f, d as int, parent)
}

/// The constants a `variable_declaration` child of field `f` declares.
pub open spec fn cs_var_decl(t: &SyntaxTree, f: int, v: int, parent: Option<Seq<char>>) -> Seq<SymbolView> {
    if t.kind_of(v) == "variable_declaration"@ {
        flat_map(t.children_of(v), cs_declarator_f(t, f, parent))
    } else {
        Seq::empty()
    }
}

/// `cs_var_decl` as a function of the child.
pub open spec fn cs_var_decl_f(t: &SyntaxTree, f: int, parent: Option<Seq<char>>) -> spec_fn(usize) -> Seq<SymbolView> {
    |v: usize| cs_var_decl(t, f, v as int, parent)
}

/// The method symbol of a method declaration.
pub open spec fn cs_method(t: &SyntaxTree, c: int, parent: Option<Seq<char>>) -> Seq<SymbolView> {
    match t.field_child(c, "name"@) {
        Some(nn) => match t.text_opt_at(nn) {
            Some(name) => seq![cs_symbol(t, name, SymbolKind::Method, c, parent)],
            None => Seq::empty(),
        },
        None => Seq::empty(),
    }
}

/// The symbols of the body of type declaration `c`, with its name as their parent.
pub open spec fn cs_body(t: &SyntaxTree, n: int, c: int) -> Seq<SymbolView>
    decreases t.size() - n, 0int,
{
    match t.field_child(c, "body"@) {
        Some(b) => if n < b < t.size() {
            cs_symbols_of(t, b, t.children_of(b).len() as int, decl_name(t, c))
        } else {
            Seq::empty()
        },
        None => Seq::empty(),
    }
}

/// The kind of symbol a type declaration kind declares.
pub open spec fn cs_type_kind(k: Seq<char>) -> Option<SymbolKind> {
    if k == "class_declaration"@ {
        Some(SymbolKind::Class)
    } else if k == "struct_declaration"@ {
        Some(SymbolKind::Struct)
    } else if k == "interface_declaration"@ {
        Some(SymbolKind::Interface)
    } else {
        None
    }
}

/// The symbols child `c` of `n` declares: classes, structs and interfaces
/// with their members, methods, `const` fields, and the declarations
/// inside namespaces and declaration lists.
pub open spec fn cs_child_symbols(t: &SyntaxTree, n: int, c: int, parent: Option<Seq<char>>) -> Seq<SymbolView>
    decreases t.size() - n, 1int,
{
    let k = t.kind_of(c);
    match cs_type_kind(k) {
        Some(sk) => cs_type_symbol(t, c, sk, parent) + cs_body(t, n, c),
        None => if k == "method_declaration"@ {
            cs_method(t, c, parent)
        } else if k == "field_declaration"@ {
            if cs_has_modifier(t, c, "const"@) {
                flat_map(t.children_of(c), cs_var_decl_f(t, c, parent))
            } else {
                Seq::empty()
            }
        } else if is_cs_container(k) {
            if n < c < t.size() {
                cs_symbols_of(t, c, t.children_of(c).len() as int, parent)
            } else {
                Seq::empty()
            }
        } else {
            Seq::empty()
        },
    }
}

/// The symbols the first `k` children of `n` declare.
pub open spec fn cs_symbols_of(t: &SyntaxTree, n: int, k: int, parent: Option<Seq<char>>) -> Seq<SymbolView>
    decreases t.size() - n, k + 2,
{
    let ch = t.children_of(n);
    if k <= 0 || k > ch.len() {
        Seq::empty()
    } else {
        cs_symbols_of(t, n, k - 1, parent) + cs_child_symbols(t, n, ch[k - 1] as int, parent)
    }
}

/// The symbols a C# file declares.
pub open spec fn cs_symbols_spec(t: &SyntaxTree) -> Seq<SymbolView> {
    cs_symbols_of(t, 0, t.children_of(0).len() as int, None)
}


/// `trim_end_semis` on characters.
fn trim_semis(v: &Vec<char>) -> (r: Vec<char>)
    ensures
        r@ == trim_end_semis(v@),
{
    let mut n = v.len();
    assert(v@.take(v@.len() as int) =~= v@);
    while n > 0 && v[n - 1] == ';'
        invariant
            n <= v@.len(),
            trim_end_semis(v@.take(n as int)) == trim_end_semis(v@),
        decreases n,
    {
        assert(v@.take(n as int).drop_last() =~= v@.take(n - 1));
        n -= 1;
    }
    crate::text::slice(v, 0, n)
}

/// The import of `p`, unless empty.
fn push_nonempty(p: &Vec<char>, out: &mut Vec<RawImport>)
    ensures
        imports_view(final(out)@) == imports_view(old(out)@) + nonempty_import(p@),
{
    let ghost before = imports_view(out@);
    if p.len() > 0 {
        let symbols: Vec<String> = Vec::new();
        assert(strings_view(symbols@) =~= Seq::<Seq<char>>::empty());
        out.push(RawImport { path: string_of(p), symbols, is_type_only: false, kind: ImportKind::Regular });
    }
    assert(imports_view(out@) =~= before + nonempty_import(p@));
}

/// Push the import one Razor line gives.
fn push_razor_line(line: &Vec<char>, out: &mut Vec<RawImport>)
    ensures
        imports_view(final(out)@) == imports_view(old(out)@) + razor_line(line@),
{
    let tr = trim(line);
    match strip_prefix(&tr, &chars_of("@using ")) {
        Some(rest) => {
            push_nonempty(&trim_semis(&trim(&rest)), out);
            return;
        },
        None => {},
    }
    match strip_prefix(&tr, &chars_of("@inject ")) {
        Some(rest) => {
            push_nonempty(&before_first(&trim(&rest), ' '), out);
            return;
        },
        None => {},
    }
    match strip_prefix(&tr, &chars_of("@inherits ")) {
        Some(rest) => {
            push_nonempty(&trim(&rest), out);
        },
        None => {
            let ghost before = imports_view(out@);
            assert(imports_view(out@) =~= before + razor_line(line@));
        },
    }
}

/// Whether a source is a Razor file.
fn is_razor_exec(ls: &Vec<Vec<char>>) -> (r: bool)
    ensures
        r == match first_nonblank(views(ls@)) {
            Some(l) => trim_start_spec(l).len() > 0 && trim_start_spec(l)[0] == '@',
            None => false,
        },
{
    let ghost vs = views(ls@);
    assert(vs.skip(0) =~= vs);
    let mut i: usize = 0;
    while i < ls.len()
        invariant
            0 <= i <= vs.len(),
            vs == views(ls@),
            first_nonblank(vs) == first_nonblank(vs.skip(i as int)),
        decreases ls.len() - i,
    {
        assert(vs.skip(i as int)[0] == ls@[i as int]@);
        assert(vs.skip(i as int).drop_first() =~= vs.skip(i + 1));
        if trim(&ls[i]).len() > 0 {
            let ts = trim_start(&ls[i]);
            return ts.len() > 0 && ts[0] == '@';
        }
        i += 1;
    }
    false
}

/// The import of a `using` directive's text.
fn using_import_exec(text: &Vec<char>) -> (r: Option<RawImport>)
    ensures
        match r {
            Some(i) => using_import(text@) == seq![i@],
            None => using_import(text@) == Seq::<ImportView>::empty(),
        },
{
    let t0 = trim(text);
    if !crate::text::contains(&t0, &chars_of("using")) {
        return None;
    }
    let t1 = trim(&trim_semis(&t0));
    let t2 = match strip_prefix(&t1, &chars_of("global")) {
        Some(r) => trim(&r),
        None => t1,
    };
    let t3 = match strip_prefix(&t2, &chars_of("using")) {
        Some(r) => trim(&r),
        None => return None,
    };
    let (st, t4) = match strip_prefix(&t3, &chars_of("static")) {
        Some(r) => (true, trim(&r)),
        None => (false, t3),
    };
    let (path, symbols): (Vec<char>, Vec<String>) = match find_char(&t4, '=') {
        Some(i) => {
            let alias = trim(&crate::text::slice(&t4, 0, i));
            let ns = trim(&crate::text::slice(&t4, i + 1, t4.len()));
            let mut v: Vec<String> = Vec::new();
            v.push(string_of(&alias));
            assert(t4@.subrange(0, i as int) =~= t4@.take(i as int));
            assert(t4@.subrange(i + 1, t4@.len() as int) =~= t4@.skip(i + 1));
            assert(strings_view(v@) =~= seq![alias@]);
            (ns, v)
        },
        None => {
            let mut v: Vec<String> = Vec::new();
            if st {
                v.push(string_of(&chars_of("static")));
            }
            assert(strings_view(v@) =~= if st {
                seq!["static"@]
            } else {
                Seq::<Seq<char>>::empty()
            });
            (t4, v)
        },
    };
    if path.len() == 0 {
        return None;
    }
    Some(RawImport { path: string_of(&path), symbols, is_type_only: false, kind: ImportKind::Regular })
}

/// Push the imports of the children of `n`.
fn push_usings(t: &SyntaxTree, n: usize, out: &mut Vec<RawImport>)
    requires
        n < t.size(),
    ensures
        imports_view(final(out)@) == imports_view(old(out)@) + usings_of(t, n as int, t.children_of(n as int).len() as int),
    decreases t.size() - n,
{
    let ghost before = imports_view(out@);
    let ch = t.children(n);
    let mut k: usize = 0;
    while k < ch.len()
        invariant
            0 <= k <= ch@.len(),
            n < t.size(),
            ch@ == t.children_of(n as int),
            forall|j: int| 0 <= j < ch@.len() ==> n < #[trigger] ch@[j] < t.size(),
            imports_view(out@) == before + usings_of(t, n as int, k as int),
        decreases ch.len() - k,
    {
        let c = ch[k];
        let ghost mid = imports_view(out@);
        if t.is_kind(c, "using_directive") {
            match using_import_exec(&chars_of(t.text(c).as_str())) {
                Some(i) => out.push(i),
                None => {},
            }
        } else if t.is_kind(c, "global_statement") || t.is_kind(c, "namespace_declaration") || t.is_kind(
            c,
            "file_scoped_namespace_declaration",
        ) || t.is_kind(c, "declaration_list") {
            push_usings(t, c, out);
        }
        assert(imports_view(out@) =~= mid + using_child(t, n as int, c as int));
        assert(imports_view(out@) =~= before + usings_of(t, n as int, k + 1));
        k += 1;
    }
}

/// Whether `n` has a modifier child with the text `m`.
fn cs_has_modifier_exec(t: &SyntaxTree, n: usize, m: &str) -> (r: bool)
    requires
        n < t.size(),
    ensures
        r == cs_has_modifier(t, n as int, m@),
{
    let ch = t.children(n);
    let mv = chars_of(m);
    let mut j: usize = 0;
    while j < ch.len()
        invariant
            0 <= j <= ch@.len(),
            ch@ == t.children_of(n as int),
            mv@ == m@,
            forall|q: int| 0 <= q < ch@.len() ==> n < #[trigger] ch@[q] < t.size(),
            forall|q: int|
                0 <= q < j ==> !((t.kind_of(#[trigger] ch@[q] as int) == "modifier"@ || t.kind_of(ch@[q] as int) == m@)
                    && t.text_at(ch@[q] as int) == m@),
        decreases ch.len() - j,
    {
        let c = ch[j];
        if (t.is_kind(c, "modifier") || t.is_kind(c, m)) && crate::text::eq(&chars_of(t.text(c).as_str()), &mv) {
            return true;
        }
        j += 1;
    }
    false
}

/// Push the exports of the children of `n`.
fn push_cs_exports(t: &SyntaxTree, n: usize, out: &mut Vec<RawExport>)
    requires
        n < t.size(),
    ensures
        exports_view(final(out)@) == exports_view(old(out)@) + cs_exports_of(t, n as int, t.children_of(n as int).len() as int),
    decreases t.size() - n,
{
    let ghost before = exports_view(out@);
    let ch = t.children(n);
    let mut k: usize = 0;
    while k < ch.len()
        invariant
            0 <= k <= ch@.len(),
            n < t.size(),
            ch@ == t.children_of(n as int),
            forall|j: int| 0 <= j < ch@.len() ==> n < #[trigger] ch@[j] < t.size(),
            exports_view(out@) == before + cs_exports_of(t, n as int, k as int),
        decreases ch.len() - k,
    {
        let c = ch[k];
        let ghost mid = exports_view(out@);
        if t.is_kind(c, "class_declaration") || t.is_kind(c, "interface_declaration") || t.is_kind(c, "struct_declaration")
            || t.is_kind(c, "enum_declaration") || t.is_kind(c, "record_declaration") {
            if cs_has_modifier_exec(t, c, "public") {
                match cs_decl_name(t, c) {
                    Some(name) => out.push(RawExport { name, is_re_export: false, source: None }),
                    None => {},
                }
            }
        } else if t.is_kind(c, "namespace_declaration") || t.is_kind(c, "file_scoped_namespace_declaration") || t.is_kind(
            c,
            "declaration_list",
        ) {
            push_cs_exports(t, c, out);
        }
        assert(exports_view(out@) =~= mid + cs_export_child(t, n as int, c as int));
        assert(exports_view(out@) =~= before + cs_exports_of(t, n as int, k + 1));
        k += 1;
    }
}

/// The name of type declaration `n`.
fn cs_decl_name(t: &SyntaxTree, n: usize) -> (r: Option<String>)
    requires
        n < t.size(),
    ensures
        opt_str(r) == decl_name(t, n as int),
{
    match t.child_by_field(n, "name") {
        Some(nn) => Some(t.text(nn)),
        None => match t.child_of_kind(n, "identifier") {
            Some(i) => Some(t.text(i)),
            None => None,
        },
    }
}

/// The visibility of declaration `n`.
fn cs_vis_exec(t: &SyntaxTree, n: usize) -> (r: Visibility)
    requires
        n < t.size(),
    ensures
        r == cs_vis(t, n as int),
{
    let ch = t.children(n);
    let ghost cs = ch@;
    assert(cs.skip(0) =~= cs);
    let mut j: usize = 0;
    while j < ch.len()
        invariant
            0 <= j <= cs.len(),
            cs == ch@,
            cs == t.children_of(n as int),
            forall|q: int| 0 <= q < cs.len() ==> n < #[trigger] cs[q] < t.size(),
            first_some(cs, cs_vis_f(t)) == first_some(cs.skip(j as int), cs_vis_f(t)),
        decreases ch.len() - j,
    {
        proof {
            lemma_first_some_step(cs, cs_vis_f(t), j as int);
        }
        let c = ch[j];
        if t.is_kind(c, "modifier") || t.is_kind(c, "public") || t.is_kind(c, "private") || t.is_kind(c, "protected")
            || t.is_kind(c, "internal") {
            let x = chars_of(t.text(c).as_str());
            if crate::text::eq(&x, &chars_of("public")) {
                return Visibility::Public;
            } else if crate::text::eq(&x, &chars_of("internal")) {
                return Visibility::Internal;
            } else if crate::text::eq(&x, &chars_of("private")) || crate::text::eq(&x, &chars_of("protected")) {
                return Visibility::Private;
            }
        }
        j += 1;
    }
    Visibility::Internal
}

/// A symbol value.
fn cs_symbol_exec(t: &SyntaxTree, name: String, kind: SymbolKind, c: usize, parent: &Option<String>) -> (r: SymbolDef)
    requires
        c < t.size(),
    ensures
        r@ == cs_symbol(t, name@, kind, c as int, opt_str(*parent)),
{
    SymbolDef {
        name,
        kind,
        visibility: cs_vis_exec(t, c),
        span: span_exec(t, c),
        signature: line_sig_exec(t, c),
        parent: clone_opt_string(parent),
    }
}

/// Push the constant declarator `d` of field `f` declares.
fn push_cs_declarator(t: &SyntaxTree, f: usize, d: usize, parent: &Option<String>, out: &mut Vec<SymbolDef>)
    requires
        f < t.size(),
        d < t.size(),
    ensures
        symbols_view(final(out)@) == symbols_view(old(out)@) + (cs_declarator_f(t, f as int, opt_str(*parent)))(d),
{
    let ghost m2 = symbols_view(out@);
    if t.is_kind(d, "variable_declarator") {
        match t.child_by_field(d, "name") {
            Some(nn) => match t.text_opt(nn) {
                Some(x) => out.push(cs_symbol_exec(t, string_of(&x), SymbolKind::Const, f, parent)),
                None => {},
            },
            None => {},
        }
    }
    assert(symbols_view(out@) =~= m2 + cs_declarator(t, f as int, d as int, opt_str(*parent)));
}

/// Push the constants field declaration `f` declares.
fn push_cs_fields(t: &SyntaxTree, f: usize, parent: &Option<String>, out: &mut Vec<SymbolDef>)
    requires
        f < t.size(),
    ensures
        symbols_view(final(out)@) == symbols_view(old(out)@) + flat_map(t.children_of(f as int), cs_var_decl_f(t, f as int, opt_str(*parent))),
{
    let ghost before = symbols_view(out@);
    let ghost p = opt_str(*parent);
    let ch = t.children(f);
    let mut k: usize = 0;
    while k < ch.len()
        invariant
            0 <= k <= ch@.len(),
            ch@ == t.children_of(f as int),
            p == opt_str(*parent),
            forall|j: int| 0 <= j < ch@.len() ==> f < #[trigger] ch@[j] < t.size(),
            symbols_view(out@) == before + flat_map(ch@.take(k as int), cs_var_decl_f(t, f as int, p)),
        decreases ch.len() - k,
    {
        proof {
            lemma_flat_map_step(ch@, cs_var_decl_f(t, f as int, p), k as int);
        }
        let v = ch[k];
        let ghost mid = symbols_view(out@);
        if t.is_kind(v, "variable_declaration") {
            let ds = t.children(v);
            let mut m: usize = 0;
            while m < ds.len()
                invariant
                    0 <= m <= ds@.len(),
                    ds@ == t.children_of(v as int),
                    f < t.size(),
                    p == opt_str(*parent),
                    forall|j: int| 0 <= j < ds@.len() ==> v < #[trigger] ds@[j] < t.size(),
                    symbols_view(out@) == mid + flat_map(ds@.take(m as int), cs_declarator_f(t, f as int, p)),
                decreases ds.len() - m,
            {
                proof {
                    lemma_flat_map_step(ds@, cs_declarator_f(t, f as int, p), m as int);
                }
                push_cs_declarator(t, f, ds[m], parent, out);
                m += 1;
            }
            assert(ds@.take(ds@.len() as int) =~= ds@);
        }
        assert(symbols_view(out@) =~= mid + cs_var_decl(t, f as int, v as int, p));
        k += 1;
    }
    assert(ch@.take(ch@.len() as int) =~= ch@);
}

/// Push the symbols of type declaration `c` and of its body.
fn push_cs_type(t: &SyntaxTree, n: usize, c: usize, kind: SymbolKind, parent: &Option<String>, out: &mut Vec<SymbolDef>)
    requires
        n < c < t.size(),
    ensures
        symbols_view(final(out)@) == symbols_view(old(out)@) + cs_type_symbol(t, c as int, kind, opt_str(*parent))
            + cs_body(t, n as int, c as int),
    decreases t.size() - n, 0int,
{
    let ghost before = symbols_view(out@);
    let name = cs_decl_name(t, c);
    match &name {
        Some(nm) => out.push(cs_symbol_exec(t, string_of(&chars_of(nm.as_str())), kind, c, parent)),
        None => {},
    }
    let ghost mid = symbols_view(out@);
    assert(mid =~= before + cs_type_symbol(t, c as int, kind, opt_str(*parent)));
    match t.child_by_field(c, "body") {
        Some(b) => push_cs_symbols(t, b, &name, out),
        None => {
            assert(symbols_view(out@) =~= mid + cs_body(t, n as int, c as int));
        },
    }
}

/// Push the symbols child `c` of `n` declares.
#[verifier::spinoff_prover]
#[verifier::rlimit(60)]
fn push_cs_child(t: &SyntaxTree, n: usize, c: usize, parent: &Option<String>, out: &mut Vec<SymbolDef>)
    requires
        n < c < t.size(),
    ensures
        symbols_view(final(out)@) == symbols_view(old(out)@) + cs_child_symbols(t, n as int, c as int, opt_str(*parent)),
    decreases t.size() - n, 1int,
{
    let ghost before = symbols_view(out@);
    let ghost p = opt_str(*parent);
    if t.is_kind(c, "class_declaration") {
        push_cs_type(t, n, c, SymbolKind::Class, parent, out);
    } else if t.is_kind(c, "struct_declaration") {
        push_cs_type(t, n, c, SymbolKind::Struct, parent, out);
    } else if t.is_kind(c, "interface_declaration") {
        push_cs_type(t, n, c, SymbolKind::Interface, parent, out);
    } else if t.is_kind(c, "method_declaration") {
        match t.child_by_field(c, "name") {
            Some(nn) => match t.text_opt(nn) {
                Some(x) => out.push(cs_symbol_exec(t, string_of(&x), SymbolKind::Method, c, parent)),
                None => {},
            },
            None => {},
        }
        assert(symbols_view(out@) =~= before + cs_method(t, c as int, p));
    } else if t.is_kind(c, "field_declaration") {
        if cs_has_modifier_exec(t, c, "const") {
            push_cs_fields(t, c, parent, out);
        }
    } else if t.is_kind(c, "namespace_declaration") || t.is_kind(c, "file_scoped_namespace_declaration") || t.is_kind(
        c,
        "declaration_list",
    ) {
        push_cs_symbols(t, c, parent, out);
    }
    assert(symbols_view(out@) =~= before + cs_child_symbols(t, n as int, c as int, p));
}

/// Push the symbols the children of `n` declare.
fn push_cs_symbols(t: &SyntaxTree, n: usize, parent: &Option<String>, out: &mut Vec<SymbolDef>)
    requires
        n < t.size(),
    ensures
        symbols_view(final(out)@) == symbols_view(old(out)@) + cs_symbols_of(
            t,
            n as int,
            t.children_of(n as int).len() as int,
            opt_str(*parent),
        ),
    decreases t.size() - n, 2int,
{
    let ghost before = symbols_view(out@);
    let ghost p = opt_str(*parent);
    let ch = t.children(n);
    let mut k: usize = 0;
    while k < ch.len()
        invariant
            0 <= k <= ch@.len(),
            n < t.size(),
            ch@ == t.children_of(n as int),
            p == opt_str(*parent),
            forall|j: int| 0 <= j < ch@.len() ==> n < #[trigger] ch@[j] < t.size(),
            symbols_view(out@) == before + cs_symbols_of(t, n as int, k as int, p),
        decreases ch.len() - k,
    {
        push_cs_child(t, n, ch[k], parent, out);
        assert(symbols_view(out@) =~= before + cs_symbols_of(t, n as int, k + 1, p));
        k += 1;
    }
}

/// Parser of C# files, Razor files among them.
#[derive(Debug)]
pub struct CSharpParser;

impl CSharpParser {
    /// The parser.
    pub fn new() -> CSharpParser {
        CSharpParser
    }

    /// The language name.
    pub fn language(&self) -> (r: &'static str)
        ensures
            r@ == "csharp"@,
    {
        "csharp"
    }

    /// The imports of a C# or Razor file.
    pub fn extract_imports(&self, t: &SyntaxTree) -> (r: Vec<RawImport>)
        ensures
            imports_view(r@) == cs_imports_spec(t),
    {
        let src = chars_of(t.source_text().as_str());
        let ls = lines(&src);
        let mut out: Vec<RawImport> = Vec::new();
        if is_razor_exec(&ls) {
            let ghost vs = views(ls@);
            let mut i: usize = 0;
            while i < ls.len()
                invariant
                    0 <= i <= vs.len(),
                    vs == views(ls@),
                    imports_view(out@) == flat_map(vs.take(i as int), razor_line_f()),
                decreases ls.len() - i,
            {
                proof {
                    lemma_flat_map_step(vs, razor_line_f(), i as int);
                }
                push_razor_line(&ls[i], &mut out);
                i += 1;
            }
            assert(vs.take(vs.len() as int) =~= vs);
            return out;
        }
        let _ = t.len();
        push_usings(t, 0, &mut out);
        assert(imports_view(out@) =~= cs_imports_spec(t));
        out
    }

    /// The exports of a C# file.
    pub fn extract_exports(&self, t: &SyntaxTree) -> (r: Vec<RawExport>)
        ensures
            exports_view(r@) == cs_exports_spec(t),
    {
        let mut out: Vec<RawExport> = Vec::new();
        let _ = t.len();
        push_cs_exports(t, 0, &mut out);
        assert(exports_view(out@) =~= cs_exports_spec(t));
        out
    }

    /// The symbols a C# file declares.
    pub fn extract_symbols(&self, t: &SyntaxTree) -> (r: Vec<SymbolDef>)
        ensures
            symbols_view(r@) == cs_symbols_spec(t),
    {
        let mut out: Vec<SymbolDef> = Vec::new();
        let _ = t.len();
        push_cs_symbols(t, 0, &None, &mut out);
        assert(symbols_view(out@) =~= cs_symbols_spec(t));
        out
    }
}

} // verus!
