//! Finding and reading the configuration files of a project.
use vstd::prelude::*;
use vstd::utf8::{decode_utf8, valid_utf8};
use crate::diagnostic::{DiagnosticCollector, Warning, WarningCode};
use crate::model::{canon_spec, dir_parent, file_name_spec, path_join, path_join_spec, CanonicalPath, FileSet, TextMap};
use crate::parser::config::bundler::{
    config_dir_of, parse_vite_config, parse_webpack_config, vite_result, webpack_result, BundlerConfig,
};
use crate::parser::config::csproj::{
    csproj_matches, entry_view, parse_csproj, parse_sln, sln_projects, sln_recognised, xml_nodes_of, CsprojConfig,
    DotnetSolutionInfo, SlnProjectEntry,
};
use crate::parser::config::gomod::{first_module, parse_go_mod, GoModConfig};
use crate::parser::config::gradle::{
    gradle_core_matches, gradle_file_scan, parse_build_gradle, parse_settings_gradle, settings_spec, unbalanced, GradleConfig,
    GradleSubproject,
};
use crate::parser::config::maven::{elem_of_rows, parse_pom_xml, pom_matches, root_elem_index, MavenConfig, XmlElem};
use crate::parser::config::nextjs::{
    all_routes_spec, discover_next_routes, pages_rest_is_bare_ext, route_views, router_type_spec,
};
use crate::parser::config::pyproject::{parse_pyproject, pyproject_result, PyProjectConfig};
use crate::parser::config::tsconfig::{
    chain_path, loaded_by, loads_made, merged_base, merged_matches, merged_targets, parse_tsconfig_with_extends, targets_at,
    yielded, TsConfig, TsLoad,
};
use crate::parser::config::turbo::{parse_turbo_config, turbo_result, TurboConfig};
use crate::parser::config::ProjectConfig;
use crate::pipeline::walk::{decimal, relative_to, relative_to_exec};
use crate::parser::traits::opt_view;
use crate::syntax::{parsed_as, parses, utf8_decode, Grammar, SyntaxTree};
use crate::text::{chars_of, concat, ends_with, eq, lines_spec, string_of};

verus! {

/// `path` under `root` (`Path::join`), as text.
fn under(root: &str, path: &str) -> (r: String)
    ensures
        r@ == path_join_spec(root@, path@),
{
    string_of(&path_join(&chars_of(root), &chars_of(path)))
}

/// The directory of a project-relative file: its parent, or nothing.
fn rel_dir_of(file: &str) -> (r: String)
    ensures
        r@ == config_dir_of(file@),
{
    match dir_parent(&chars_of(file)) {
        Some(d) => string_of(&d),
        None => String::new(),
    }
}

/// `dir` joined with `name`, or `name` alone for the project root.
pub open spec fn in_dir_spec(dir: Seq<char>, name: Seq<char>) -> Seq<char> {
    if dir.len() == 0 {
        name
    } else {
        path_join_spec(dir, name)
    }
}

/// `dir` joined with `name`, or `name` alone for the project root.
fn in_dir(dir: &str, name: &str) -> (r: String)
    ensures
        r@ == in_dir_spec(dir@, name@),
{
    if dir.is_empty() {
        string_of(&chars_of(name))
    } else {
        under(dir, name)
    }
}

/// Reading the file at `path` through `read` can give the text `t`: the
/// characters of bytes `read` may return for it when they are UTF-8, and
/// nothing when it may return nothing or bytes that are not UTF-8.
pub open spec fn text_read<F: Fn(String) -> Option<Vec<u8>>>(read: F, path: Seq<char>, t: Option<Seq<char>>) -> bool {
    exists|p: String, b: Option<Vec<u8>>|
        #![trigger read.ensures((p,), b)]
        p@ == path && read.ensures((p,), b) && t == match b {
            Some(bytes) => if valid_utf8(bytes@) {
                Some(decode_utf8(bytes@))
            } else {
                None
            },
            None => None,
        }
}

/// A file read as UTF-8 text (`fs::read_to_string`), through `read`.
fn read_text<F: Fn(String) -> Option<Vec<u8>>>(read: &F, path: String) -> (r: Option<String>)
    requires
        forall|p: String| read.requires((p,)),
    ensures
        text_read(*read, path@, opt_view(r)),
{
    let ghost p = path;
    let r = match read(path) {
        Some(bytes) => utf8_decode(bytes.as_slice()),
        None => None,
    };
    assert(exists|b: Option<Vec<u8>>| #[trigger] read.ensures((p,), b) && opt_view(r) == match b {
        Some(bytes) => if valid_utf8(bytes@) {
            Some(decode_utf8(bytes@))
        } else {
            None
        },
        None => None,
    });
    r
}

/// The Go module config read from the text `t` of `go.mod`.
pub open spec fn go_result(t: Option<Seq<char>>, g: Option<GoModConfig>) -> bool {
    match t {
        Some(text) => match g {
            Some(c) => first_module(lines_spec(text)) == Some(c.module@),
            None => first_module(lines_spec(text)) is None,
        },
        None => g is None,
    }
}

/// The Python project config read from the text `t` of `pyproject.toml`.
pub open spec fn py_result(t: Option<Seq<char>>, p: Option<PyProjectConfig>) -> bool {
    match t {
        Some(text) => pyproject_result(text, p),
        None => p is None,
    }
}

/// The solution read from the text `t` of the solution file at `path`.
pub open spec fn sln_result(t: Option<Seq<char>>, path: Seq<char>, s: Option<DotnetSolutionInfo>) -> bool {
    match t {
        Some(text) => (s is Some <==> sln_recognised(text)) && (s matches Some(info) ==> info.solution_path@ == path
            && info.projects@.map_values(|e: SlnProjectEntry| entry_view(e)) == sln_projects(lines_spec(text))),
        None => s is None,
    }
}

/// A `.csproj` file.
pub open spec fn is_csproj_file(f: Seq<char>) -> bool {
    ".csproj"@.is_suffix_of(f)
}

/// A Gradle build file.
pub open spec fn is_gradle_file(f: Seq<char>) -> bool {
    file_name_spec(f) == "build.gradle"@ || file_name_spec(f) == "build.gradle.kts"@
}

/// A Maven POM.
pub open spec fn is_pom_file(f: Seq<char>) -> bool {
    file_name_spec(f) == "pom.xml"@
}

/// A Vite or Webpack configuration file.
pub open spec fn is_bundler_file(f: Seq<char>) -> bool {
    ||| file_name_spec(f) == "vite.config.ts"@
    ||| file_name_spec(f) == "vite.config.js"@
    ||| file_name_spec(f) == "vite.config.mjs"@
    ||| file_name_spec(f) == "webpack.config.js"@
    ||| file_name_spec(f) == "webpack.config.ts"@
}

/// Whether the file's name is `name`.
fn named(f: &CanonicalPath, name: &str) -> (r: bool)
    ensures
        r == (crate::model::file_name_spec(f@) == name@),
{
    eq(&f.file_name(), &chars_of(name))
}

/// The build file of subproject path `sp` with name `file`, under `rel_dir`.
pub open spec fn sub_build(rel_dir: Seq<char>, sp: Seq<char>, file: Seq<char>) -> Seq<char> {
    canon_spec(path_join_spec(in_dir_spec(rel_dir, sp), file))
}

/// One `W041GradleSubprojectNotFound` per subproject with neither build
/// file among the known files, in order.
pub open spec fn gradle_missing_codes(sps: Seq<GradleSubproject>, rel_dir: Seq<char>, files: Seq<Seq<char>>) -> Seq<WarningCode>
    decreases sps.len(),
{
    if sps.len() == 0 {
        Seq::empty()
    } else {
        let sp = sps.last();
        gradle_missing_codes(sps.drop_last(), rel_dir, files) + if !files.contains(sub_build(rel_dir, sp.path@, "build.gradle"@))
            && !files.contains(sub_build(rel_dir, sp.path@, "build.gradle.kts"@)) {
            seq![WarningCode::W041GradleSubprojectNotFound]
        } else {
            Seq::empty()
        }
    }
}

/// One `W040MavenModuleNotFound` per module whose `pom.xml` is not among
/// the known files, in order.
pub open spec fn maven_missing_codes(modules: Seq<String>, rel_dir: Seq<char>, files: Seq<Seq<char>>) -> Seq<WarningCode>
    decreases modules.len(),
{
    if modules.len() == 0 {
        Seq::empty()
    } else {
        maven_missing_codes(modules.drop_last(), rel_dir, files) + if !files.contains(sub_build(rel_dir, modules.last()@, "pom.xml"@)) {
            seq![WarningCode::W040MavenModuleNotFound]
        } else {
            Seq::empty()
        }
    }
}

/// Check that each subproject declared in a settings file has a build
/// file (`build.gradle` or `build.gradle.kts`) among the known files,
/// reporting `W041GradleSubprojectNotFound` for each that has none.
fn check_gradle_subprojects(subprojects: &Vec<GradleSubproject>, rel_dir: &str, known_files: &FileSet, diag: &mut DiagnosticCollector)
    ensures
        final(diag).codes() == old(diag).codes() + gradle_missing_codes(subprojects@, rel_dir@, known_files@),
{
    let ghost c0 = diag.codes();
    let mut i: usize = 0;
    while i < subprojects.len()
        invariant
            i <= subprojects@.len(),
            diag.codes() == c0 + gradle_missing_codes(subprojects@.take(i as int), rel_dir@, known_files@),
        decreases subprojects.len() - i,
    {
        let ghost pre = subprojects@.take(i as int);
        assert(subprojects@.take(i + 1).drop_last() =~= pre);
        assert(subprojects@.take(i + 1).last() == subprojects@[i as int]);
        let sp = &subprojects[i];
        let base = in_dir(rel_dir, sp.path.as_str());
        let groovy = CanonicalPath::new(under(base.as_str(), "build.gradle").as_str());
        let kts = CanonicalPath::new(under(base.as_str(), "build.gradle.kts").as_str());
        if !known_files.contains(&groovy) && !known_files.contains(&kts) {
            let mut msg = chars_of("Gradle subproject '");
            crate::text::push_all(&mut msg, &chars_of(sp.name.as_str()));
            crate::text::push_all(&mut msg, &chars_of("' declared in settings.gradle but no build.gradle found"));
            diag.warn(Warning {
                code: WarningCode::W041GradleSubprojectNotFound,
                path: CanonicalPath::new(sp.name.as_str()),
                message: string_of(&msg),
                detail: None,
            });
        }
        assert(diag.codes() =~= c0 + gradle_missing_codes(subprojects@.take(i + 1), rel_dir@, known_files@));
        i += 1;
    }
    assert(subprojects@.take(subprojects@.len() as int) =~= subprojects@);
}

/// Check that each module a POM declares has a `pom.xml` among the known
/// files, reporting `W040MavenModuleNotFound` for each that has none.
fn check_maven_modules(modules: &Vec<String>, rel_dir: &str, known_files: &FileSet, diag: &mut DiagnosticCollector)
    ensures
        final(diag).codes() == old(diag).codes() + maven_missing_codes(modules@, rel_dir@, known_files@),
{
    let ghost c0 = diag.codes();
    let mut i: usize = 0;
    while i < modules.len()
        invariant
            i <= modules@.len(),
            diag.codes() == c0 + maven_missing_codes(modules@.take(i as int), rel_dir@, known_files@),
        decreases modules.len() - i,
    {
        let ghost pre = modules@.take(i as int);
        assert(modules@.take(i + 1).drop_last() =~= pre);
        assert(modules@.take(i + 1).last() == modules@[i as int]);
        let m = &modules[i];
        let pom = CanonicalPath::new(under(in_dir(rel_dir, m.as_str()).as_str(), "pom.xml").as_str());
        if !known_files.contains(&pom) {
            let mut msg = chars_of("Maven module '");
            crate::text::push_all(&mut msg, &chars_of(m.as_str()));
            crate::text::push_all(&mut msg, &chars_of("' declared in pom.xml but "));
            crate::text::push_all(&mut msg, &chars_of(m.as_str()));
            crate::text::push_all(&mut msg, &chars_of("/pom.xml not found"));
            diag.warn(Warning {
                code: WarningCode::W040MavenModuleNotFound,
                path: CanonicalPath::new(m.as_str()),
                message: string_of(&msg),
                detail: None,
            });
        }
        assert(diag.codes() =~= c0 + maven_missing_codes(modules@.take(i + 1), rel_dir@, known_files@));
        i += 1;
    }
    assert(modules@.take(modules@.len() as int) =~= modules@);
}

/// The `.sln` files among the known files, in text order.
pub open spec fn sln_files(files: Seq<Seq<char>>) -> Seq<Seq<char>> {
    files.filter(|f: Seq<char>| ".sln"@.is_suffix_of(f))
}

/// The `.sln` files among the known files, in text order.
fn find_sln_files(known_files: &FileSet) -> (r: Vec<String>)
    ensures
        r@.map_values(|s: String| s@) == sln_files(known_files@),
{
    let ps = known_files.paths();
    let ghost fs = known_files@;
    let mut out: Vec<String> = Vec::new();
    let mut i: usize = 0;
    while i < ps.len()
        invariant
            i <= ps@.len(),
            fs == known_files@,
            crate::model::path_views(ps@) == fs,
            out@.map_values(|s: String| s@) == sln_files(fs.take(i as int)),
        decreases ps.len() - i,
    {
        let ghost o0 = out@;
        let f = ps[i].chars();
        assert(fs[i as int] == f@);
        assert(fs.take(i + 1).drop_last() =~= fs.take(i as int));
        if ends_with(&f, &chars_of(".sln")) {
            let s = string_of(&f);
            out.push(s);
            assert(out@.map_values(|s: String| s@) =~= o0.map_values(|s: String| s@).push(f@));
        }
        assert(sln_files(fs.take(i + 1)) == sln_files(fs.take(i as int)) + if ".sln"@.is_suffix_of(f@) {
            seq![f@]
        } else {
            Seq::<Seq<char>>::empty()
        }) by {
            vstd::seq_lib::lemma_seq_take_len(fs, i + 1);
            reveal(Seq::filter);
        }
        i += 1;
    }
    assert(fs.take(fs.len() as int) =~= fs);
    out
}

/// An entry of a configuration map as an entry function gives it: its key
/// and its configuration.
pub open spec fn keyed_view<V>(r: Option<(String, V)>) -> Option<(Seq<char>, V)> {
    match r {
        Some((k, v)) => Some((k@, v)),
        None => None,
    }
}

/// The configuration of an entry, if any.
pub open spec fn entry_value<V>(o: Option<(Seq<char>, V)>) -> Option<V> {
    match o {
        Some(e) => Some(e.1),
        None => None,
    }
}

/// The value of the last of the entries `outs` keyed `k`, if any: a later
/// entry for a key replaces an earlier one.
pub open spec fn last_entry<V>(outs: Seq<Option<(Seq<char>, V)>>, k: Seq<char>) -> Option<V>
    decreases outs.len(),
{
    if outs.len() == 0 {
        None
    } else if outs.last() is Some && (outs.last()->0).0 == k {
        Some((outs.last()->0).1)
    } else {
        last_entry(outs.drop_last(), k)
    }
}

/// `outs` are the entries read for the `files`, one per file as `entry`
/// allows (none for a file of another kind), and `m` holds, per key, the
/// last of them.
pub open spec fn fills<V>(
    m: &TextMap<V>,
    files: Seq<Seq<char>>,
    entry: spec_fn(Seq<char>, Option<(Seq<char>, V)>) -> bool,
    outs: Seq<Option<(Seq<char>, V)>>,
) -> bool {
    &&& outs.len() == files.len()
    &&& forall|j: int| 0 <= j < files.len() ==> entry(files[j], #[trigger] outs[j])
    &&& forall|k: Seq<char>| #[trigger] m.spec_get(k) == last_entry(outs, k)
}

/// The map `m` holds what reading the `files` one by one gave (see [`fills`]).
pub open spec fn filled<V>(
    m: &TextMap<V>,
    files: Seq<Seq<char>>,
    entry: spec_fn(Seq<char>, Option<(Seq<char>, V)>) -> bool,
) -> bool {
    exists|outs: Seq<Option<(Seq<char>, V)>>| #[trigger] fills(m, files, entry, outs)
}

proof fn lemma_fills_step<V>(
    m0: TextMap<V>,
    m1: TextMap<V>,
    files: Seq<Seq<char>>,
    i: int,
    entry: spec_fn(Seq<char>, Option<(Seq<char>, V)>) -> bool,
    outs: Seq<Option<(Seq<char>, V)>>,
    o: Option<(Seq<char>, V)>,
)
    requires
        0 <= i < files.len(),
        fills(&m0, files.take(i), entry, outs),
        entry(files[i], o),
        forall|k: Seq<char>| #[trigger] m1.spec_get(k) == match o {
            Some(e) => if k == e.0 {
                Some(e.1)
            } else {
                m0.spec_get(k)
            },
            None => m0.spec_get(k),
        },
    ensures
        fills(&m1, files.take(i + 1), entry, outs.push(o)),
{
    let t = files.take(i + 1);
    let o2 = outs.push(o);
    assert(o2.drop_last() =~= outs);
    assert forall|j: int| 0 <= j < t.len() implies entry(t[j], #[trigger] o2[j]) by {
        if j < i {
            assert(t[j] == files.take(i)[j]);
            assert(o2[j] == outs[j]);
        } else {
            assert(t[j] == files[i]);
        }
    }
    assert forall|k: Seq<char>| #[trigger] m1.spec_get(k) == last_entry(o2, k) by {
        assert(m0.spec_get(k) == last_entry(outs, k));
    }
}

/// A `tsconfig.json` file.
pub open spec fn is_tsconfig_file(f: Seq<char>) -> bool {
    file_name_spec(f) == "tsconfig.json"@
}

/// The entry `o` is what the tsconfig file `f` (under `root`) gives: the
/// loads made along its `extends` chain through `load` yield the
/// configurations `cs`; without one there is no entry, and otherwise the
/// entry is keyed by the first file's directory relative to `abs_root`,
/// with the chain's merged base URL and `paths`.
pub open spec fn ts_entry_ok<L: Fn(String) -> TsLoad>(
    load: L,
    root: Seq<char>,
    abs_root: Seq<char>,
    f: Seq<char>,
    o: Option<(Seq<char>, TsConfig)>,
) -> bool {
    if is_tsconfig_file(f) {
        exists|made: Seq<TsLoad>, cs: Seq<TsConfig>|
            #![trigger loads_made(load, path_join_spec(root, f), made), yielded(made, cs)]
            loads_made(load, path_join_spec(root, f), made) && yielded(made, cs) && match o {
                None => cs.len() == 0,
                Some(e) => {
                    &&& cs.len() > 0
                    &&& e.0 == relative_to(cs[0].config_dir@, abs_root)
                    &&& e.1.config_dir@ == e.0
                    &&& opt_view(e.1.base_url) == merged_base(cs)
                    &&& forall|k: Seq<char>| #[trigger] targets_at(&e.1.paths, k) == merged_targets(cs, k)
                },
            }
    } else {
        o is None
    }
}

/// [`ts_entry_ok`] as a rule on files.
pub open spec fn ts_entries<L: Fn(String) -> TsLoad>(
    load: L,
    root: Seq<char>,
    abs_root: Seq<char>,
) -> spec_fn(Seq<char>, Option<(Seq<char>, TsConfig)>) -> bool {
    |f: Seq<char>, o: Option<(Seq<char>, TsConfig)>| ts_entry_ok(load, root, abs_root, f, o)
}

/// The entry `o` is what the `.csproj` file `f` gives: a text `read` gave
/// for it that is XML gives the project its nodes describe, keyed by the
/// file's directory; no text, or text that is not XML, gives none.
pub open spec fn csproj_entry_ok<F: Fn(String) -> Option<Vec<u8>>>(
    read: F,
    root: Seq<char>,
    f: Seq<char>,
    o: Option<(Seq<char>, CsprojConfig)>,
) -> bool {
    if is_csproj_file(f) {
        exists|t: Option<Seq<char>>|
            #[trigger] text_read(read, path_join_spec(root, f), t) && match o {
                Some(e) => e.0 == config_dir_of(f) && (t matches Some(text) && (xml_nodes_of(text) matches Ok(ns)
                    && csproj_matches(e.1, ns, f))),
                None => match t {
                    Some(text) => xml_nodes_of(text) is Err,
                    None => true,
                },
            }
    } else {
        o is None
    }
}

/// [`csproj_entry_ok`] as a rule on files.
pub open spec fn csproj_entries<F: Fn(String) -> Option<Vec<u8>>>(
    read: F,
    root: Seq<char>,
) -> spec_fn(Seq<char>, Option<(Seq<char>, CsprojConfig)>) -> bool {
    |f: Seq<char>, o: Option<(Seq<char>, CsprojConfig)>| csproj_entry_ok(read, root, f, o)
}

/// The entry `o` is what the `pom.xml` file `f` gives: a text `read` gave
/// for it that is XML with a root element gives the POM that element
/// describes, keyed by the file's directory; otherwise there is none.
pub open spec fn pom_entry_ok<F: Fn(String) -> Option<Vec<u8>>>(
    read: F,
    root: Seq<char>,
    f: Seq<char>,
    o: Option<(Seq<char>, MavenConfig)>,
) -> bool {
    if is_pom_file(f) {
        exists|t: Option<Seq<char>>|
            #[trigger] text_read(read, path_join_spec(root, f), t) && match o {
                Some(e) => e.0 == config_dir_of(f) && (t matches Some(text) && (xml_nodes_of(text) matches Ok(rows)
                    && (root_elem_index(rows) matches Some(ri) && exists|x: XmlElem| #[trigger] elem_of_rows(x, rows, ri, 3)
                    && pom_matches(e.1, x, f)))),
                None => match t {
                    Some(text) => match xml_nodes_of(text) {
                        Ok(rows) => root_elem_index(rows) is None,
                        Err(_) => true,
                    },
                    None => true,
                },
            }
    } else {
        o is None
    }
}

/// [`pom_entry_ok`] as a rule on files.
pub open spec fn pom_entries<F: Fn(String) -> Option<Vec<u8>>>(
    read: F,
    root: Seq<char>,
) -> spec_fn(Seq<char>, Option<(Seq<char>, MavenConfig)>) -> bool {
    |f: Seq<char>, o: Option<(Seq<char>, MavenConfig)>| pom_entry_ok(read, root, f, o)
}

/// A Vite configuration file (the others of [`is_bundler_file`] are Webpack's).
pub open spec fn is_vite_file(f: Seq<char>) -> bool {
    file_name_spec(f) == "vite.config.ts"@ || file_name_spec(f) == "vite.config.js"@ || file_name_spec(f)
        == "vite.config.mjs"@
}

/// What the configuration file `f` gives when its tree is `t`, as a Vite
/// or a Webpack configuration by its name (`c0` the warnings before, `c1`
/// those after).
pub open spec fn bundler_outcome(t: &SyntaxTree, f: Seq<char>, r: Option<BundlerConfig>, c0: Seq<WarningCode>, c1: Seq<WarningCode>) -> bool {
    if is_vite_file(f) {
        vite_result(t, f, r, c0, c1)
    } else {
        webpack_result(t, f, r, c0, c1)
    }
}

/// The entry `o` is what the Vite or Webpack file `f` gives: bytes `read`
/// gave for it that parse give what their tree holds, keyed by the file's
/// directory; no bytes, or bytes that do not parse, give none.
pub open spec fn bundler_entry_ok<F: Fn(String) -> Option<Vec<u8>>>(
    read: F,
    root: Seq<char>,
    f: Seq<char>,
    o: Option<(Seq<char>, BundlerConfig)>,
) -> bool {
    if is_bundler_file(f) {
        exists|p: String, b: Option<Vec<u8>>|
            #![trigger read.ensures((p,), b)]
            p@ == path_join_spec(root, f) && read.ensures((p,), b) && match b {
                None => o is None,
                Some(bytes) => if parses(Grammar::TypeScript, bytes@) {
                    &&& (o matches Some(e) ==> e.0 == config_dir_of(f))
                    &&& exists|t: SyntaxTree, c0: Seq<WarningCode>, c1: Seq<WarningCode>|
                        parsed_as(Grammar::TypeScript, bytes@, t) && #[trigger] bundler_outcome(&t, f, entry_value(o), c0, c1)
                } else {
                    o is None
                },
            }
    } else {
        o is None
    }
}

/// [`bundler_entry_ok`] as a rule on files.
pub open spec fn bundler_entries<F: Fn(String) -> Option<Vec<u8>>>(
    read: F,
    root: Seq<char>,
) -> spec_fn(Seq<char>, Option<(Seq<char>, BundlerConfig)>) -> bool {
    |f: Seq<char>, o: Option<(Seq<char>, BundlerConfig)>| bundler_entry_ok(read, root, f, o)
}

/// The subprojects of `c` are those of `st`, a settings file's text.
pub open spec fn subprojects_of(c: GradleConfig, st: Seq<char>) -> bool {
    c.subprojects@.map_values(|p: GradleSubproject| (p.name@, p.path@)) == settings_spec(st)
}

/// The subprojects of `c` are those the first settings file in `dir` that
/// `read` gives text for declares: `settings.gradle`, else
/// `settings.gradle.kts`; none when neither gives text.
pub open spec fn settings_read<F: Fn(String) -> Option<Vec<u8>>>(read: F, root: Seq<char>, dir: Seq<char>, c: GradleConfig) -> bool {
    exists|t0: Option<Seq<char>>|
        #[trigger] text_read(read, path_join_spec(root, in_dir_spec(dir, "settings.gradle"@)), t0) && match t0 {
            Some(st) => subprojects_of(c, st),
            None => exists|t1: Option<Seq<char>>|
                #[trigger] text_read(read, path_join_spec(root, in_dir_spec(dir, "settings.gradle.kts"@)), t1) && match t1 {
                    Some(st) => subprojects_of(c, st),
                    None => c.subprojects@.len() == 0,
                },
        }
}

/// The entry `o` is what the Gradle build file `f` gives: a text `read`
/// gave for it, of at most `i32::MAX` characters and with balanced braces,
/// gives what its scan finds, keyed by the file's directory, with no
/// subprojects or those of a settings file beside it; otherwise there is
/// none.
pub open spec fn gradle_entry_ok<F: Fn(String) -> Option<Vec<u8>>>(
    read: F,
    root: Seq<char>,
    f: Seq<char>,
    o: Option<(Seq<char>, GradleConfig)>,
) -> bool {
    if is_gradle_file(f) {
        exists|t: Option<Seq<char>>|
            #[trigger] text_read(read, path_join_spec(root, f), t) && match o {
                Some(e) => {
                    &&& e.0 == config_dir_of(f)
                    &&& t matches Some(text) && text.len() <= 0x7fff_ffff && !unbalanced(gradle_file_scan(text))
                        && gradle_core_matches(e.1, gradle_file_scan(text), config_dir_of(f))
                    &&& settings_read(read, root, config_dir_of(f), e.1)
                },
                None => match t {
                    Some(text) => text.len() > 0x7fff_ffff || unbalanced(gradle_file_scan(text)),
                    None => true,
                },
            }
    } else {
        o is None
    }
}

/// [`gradle_entry_ok`] as a rule on files.
pub open spec fn gradle_entries<F: Fn(String) -> Option<Vec<u8>>>(
    read: F,
    root: Seq<char>,
) -> spec_fn(Seq<char>, Option<(Seq<char>, GradleConfig)>) -> bool {
    |f: Seq<char>, o: Option<(Seq<char>, GradleConfig)>| gradle_entry_ok(read, root, f, o)
}

/// A `turbo.json` file.
pub open spec fn is_turbo_file(f: Seq<char>) -> bool {
    file_name_spec(f) == "turbo.json"@
}

/// No `turbo.json` file before position `j` gave bytes.
pub open spec fn no_turbo_before(files: Seq<Seq<char>>, bs: Seq<Option<Vec<u8>>>, j: int) -> bool {
    forall|x: int| 0 <= x < j ==> !(is_turbo_file(files[x]) && #[trigger] bs[x] is Some)
}

/// The `turbo.json` file at position `j` is the first that gave bytes.
pub open spec fn first_turbo(files: Seq<Seq<char>>, bs: Seq<Option<Vec<u8>>>, j: int) -> bool {
    is_turbo_file(files[j]) && bs[j] is Some && no_turbo_before(files, bs, j)
}

/// When the `turbo.json` file at position `j` was read (no earlier one
/// gave bytes), `bs[j]` is what `read` gave for it.
pub open spec fn turbo_read_at<F: Fn(String) -> Option<Vec<u8>>>(
    read: F,
    root: Seq<char>,
    files: Seq<Seq<char>>,
    bs: Seq<Option<Vec<u8>>>,
    j: int,
) -> bool {
    is_turbo_file(files[j]) && no_turbo_before(files, bs, j) ==> exists|p: String|
        p@ == path_join_spec(root, files[j]) && #[trigger] read.ensures((p,), bs[j])
}

/// `bs[j]` is what `read` gave for each `turbo.json` file read, in order,
/// up to the first that gave bytes, and `t` is what that file holds, or
/// nothing when none gave bytes.
pub open spec fn turbo_reads<F: Fn(String) -> Option<Vec<u8>>>(
    read: F,
    root: Seq<char>,
    files: Seq<Seq<char>>,
    bs: Seq<Option<Vec<u8>>>,
    t: Option<TurboConfig>,
) -> bool {
    &&& bs.len() == files.len()
    &&& forall|j: int| 0 <= j < files.len() ==> #[trigger] turbo_read_at(read, root, files, bs, j)
    &&& forall|j: int|
        0 <= j < files.len() && #[trigger] first_turbo(files, bs, j) ==> exists|c0: Seq<WarningCode>, c1: Seq<WarningCode>|
            #[trigger] turbo_result(bs[j]->0@, files[j], t, c0, c1)
    &&& no_turbo_before(files, bs, files.len() as int) ==> t is None
}

/// What reading the first `n` known files did for `turbo.json`: `bs` as in
/// [`turbo_reads`] so far; `seen` when one of them gave bytes, the file at
/// `tj`, whose bytes give `t` (with warnings `c0` before and `c1` after);
/// otherwise `t` is nothing.
pub open spec fn turbo_prefix<F: Fn(String) -> Option<Vec<u8>>>(
    read: F,
    root: Seq<char>,
    files: Seq<Seq<char>>,
    bs: Seq<Option<Vec<u8>>>,
    n: int,
    seen: bool,
    tj: int,
    t: Option<TurboConfig>,
    c0: Seq<WarningCode>,
    c1: Seq<WarningCode>,
) -> bool {
    &&& bs.len() == n
    &&& forall|j: int| 0 <= j < n ==> #[trigger] turbo_read_at(read, root, files, bs, j)
    &&& seen ==> 0 <= tj < n && first_turbo(files, bs, tj) && turbo_result(bs[tj]->0@, files[tj], t, c0, c1)
    &&& !seen ==> no_turbo_before(files, bs, n) && t is None
}

proof fn lemma_turbo_step<F: Fn(String) -> Option<Vec<u8>>>(
    read: F,
    root: Seq<char>,
    files: Seq<Seq<char>>,
    bs0: Seq<Option<Vec<u8>>>,
    i: int,
    seen0: bool,
    tj0: int,
    t0: Option<TurboConfig>,
    c00: Seq<WarningCode>,
    c10: Seq<WarningCode>,
    b: Option<Vec<u8>>,
    p: String,
    seen1: bool,
    tj1: int,
    t1: Option<TurboConfig>,
    c01: Seq<WarningCode>,
    c11: Seq<WarningCode>,
)
    requires
        0 <= i < files.len(),
        turbo_prefix(read, root, files, bs0, i, seen0, tj0, t0, c00, c10),
        seen0 || !is_turbo_file(files[i]) ==> b is None && seen1 == seen0 && tj1 == tj0 && t1 == t0 && c01 == c00
            && c11 == c10,
        !seen0 && is_turbo_file(files[i]) ==> {
            &&& p@ == path_join_spec(root, files[i])
            &&& read.ensures((p,), b)
            &&& b is None ==> !seen1 && t1 is None
            &&& b is Some ==> seen1 && tj1 == i && turbo_result(b->0@, files[i], t1, c01, c11)
        },
    ensures
        turbo_prefix(read, root, files, bs0.push(b), i + 1, seen1, tj1, t1, c01, c11),
{
    let bs = bs0.push(b);
    assert forall|x: int| 0 <= x < i implies #[trigger] bs[x] == bs0[x] by {}
    assert forall|j: int| 0 <= j <= i implies (no_turbo_before(files, bs, j) <==> no_turbo_before(files, bs0, j)) by {
        if no_turbo_before(files, bs0, j) {
            assert forall|x: int| 0 <= x < j implies !(is_turbo_file(files[x]) && #[trigger] bs[x] is Some) by {
                assert(bs[x] == bs0[x]);
            }
        }
        if no_turbo_before(files, bs, j) {
            assert forall|x: int| 0 <= x < j implies !(is_turbo_file(files[x]) && #[trigger] bs0[x] is Some) by {
                assert(bs[x] == bs0[x]);
            }
        }
    }
    assert(bs[i] == b);
    if seen0 {
        assert(bs[tj0] == bs0[tj0]);
        assert(no_turbo_before(files, bs, tj0));
        assert(first_turbo(files, bs, tj1));
        assert(turbo_result(bs[tj1]->0@, files[tj1], t1, c01, c11));
    }
    if seen1 && !seen0 {
        assert(no_turbo_before(files, bs, i));
        assert(first_turbo(files, bs, i));
        assert(turbo_result(bs[tj1]->0@, files[tj1], t1, c01, c11));
    }
    if !seen1 {
        assert(!seen0);
        assert(!(is_turbo_file(files[i]) && b is Some));
        assert(no_turbo_before(files, bs0, i));
        assert forall|x: int| 0 <= x < i + 1 implies !(is_turbo_file(files[x]) && #[trigger] bs[x] is Some) by {
            if x < i {
                assert(bs[x] == bs0[x]);
                assert(!(is_turbo_file(files[x]) && bs0[x] is Some));
            }
        }
        assert(no_turbo_before(files, bs, i + 1));
        assert(t1 is None);
    }
    assert forall|j: int| 0 <= j < i + 1 implies #[trigger] turbo_read_at(read, root, files, bs, j) by {
        if j < i {
            assert(bs[j] == bs0[j]);
            assert(turbo_read_at(read, root, files, bs0, j));
        } else if seen0 {
            assert(bs[tj0] == bs0[tj0]);
            assert(is_turbo_file(files[tj0]) && bs[tj0] is Some);
        } else if is_turbo_file(files[j]) {
            assert(read.ensures((p,), bs[j]));
        }
    }
}

proof fn lemma_turbo_done<F: Fn(String) -> Option<Vec<u8>>>(
    read: F,
    root: Seq<char>,
    files: Seq<Seq<char>>,
    bs: Seq<Option<Vec<u8>>>,
    seen: bool,
    tj: int,
    t: Option<TurboConfig>,
    c0: Seq<WarningCode>,
    c1: Seq<WarningCode>,
)
    requires
        turbo_prefix(read, root, files, bs, files.len() as int, seen, tj, t, c0, c1),
    ensures
        turbo_reads(read, root, files, bs, t),
{
    assert forall|j: int| 0 <= j < files.len() && #[trigger] first_turbo(files, bs, j) implies exists|
        d0: Seq<WarningCode>,
        d1: Seq<WarningCode>,
    | #[trigger] turbo_result(bs[j]->0@, files[j], t, d0, d1) by {
        if seen {
            if j < tj {
                assert(!(is_turbo_file(files[j]) && bs[j] is Some));
            } else if j > tj {
                assert(!(is_turbo_file(files[tj]) && bs[tj] is Some));
            }
            assert(turbo_result(bs[j]->0@, files[j], t, c0, c1));
        } else {
            assert(!(is_turbo_file(files[j]) && bs[j] is Some));
        }
    }
    if seen {
        assert(is_turbo_file(files[tj]) && bs[tj] is Some);
        assert(!no_turbo_before(files, bs, files.len() as int));
    }
}

/// The tsconfig entry of the file `fs`: its directory relative to
/// `abs_root`, with the configuration read along its `extends` chain.
fn ts_entry<L: Fn(String) -> TsLoad>(project_root: &str, abs_root: &str, fs: &str, load_ts: &L, diag: &mut DiagnosticCollector) -> (r: Option<(String, TsConfig)>)
    requires
        forall|p: String| load_ts.requires((p,)),
        is_tsconfig_file(fs@),
    ensures
        ts_entry_ok(*load_ts, project_root@, abs_root@, fs@, keyed_view(r)),
{
    let tpath = under(project_root, fs);
    let r = parse_tsconfig_with_extends(tpath.as_str(), load_ts, diag);
    let ghost (made, cs) = choose|made: Seq<TsLoad>, cs: Seq<TsConfig>|
        #![trigger loads_made(load_ts, tpath@, made), yielded(made, cs)]
        {
            &&& loads_made(load_ts, tpath@, made)
            &&& yielded(made, cs)
            &&& (r is None <==> cs.len() == 0)
            &&& (r matches Some(c) ==> merged_matches(c, cs))
        };
    proof {
        lemma_loads_made_ref(load_ts, tpath@, made);
    }
    match r {
        Some(mut config) => {
            let rel = relative_to_exec(&chars_of(config.config_dir.as_str()), &chars_of(abs_root));
            config.config_dir = string_of(&rel);
            Some((string_of(&rel), config))
        },
        None => None,
    }
}

/// Loads made through a reference to a loader are loads made through it.
proof fn lemma_loads_made_ref<L: Fn(String) -> TsLoad>(load: &L, path: Seq<char>, made: Seq<TsLoad>)
    requires
        loads_made(load, path, made),
    ensures
        loads_made(*load, path, made),
{
    assert forall|i: int| 0 <= i < made.len() implies loaded_by(*load, chain_path(made, path, i), #[trigger] made[i]) by {
        assert(loaded_by(load, chain_path(made, path, i), made[i]));
        let s = choose|s: String| s@ == chain_path(made, path, i) && #[trigger] load.ensures((s,), made[i]);
        assert((*load).ensures((s,), made[i]));
    }
}

/// The `.csproj` entry of the file `fs`: its directory, with the project read.
fn csproj_entry<F: Fn(String) -> Option<Vec<u8>>>(read: &F, project_root: &str, fs: &str, diag: &mut DiagnosticCollector) -> (r: Option<(String, CsprojConfig)>)
    requires
        forall|p: String| read.requires((p,)),
        is_csproj_file(fs@),
    ensures
        csproj_entry_ok(*read, project_root@, fs@, keyed_view(r)),
{
    let cpath = under(project_root, fs);
    let text = read_text(read, cpath);
    assert(text_read(*read, path_join_spec(project_root@, fs@), opt_view(text)));
    match text {
        Some(content) => match parse_csproj(content.as_str(), fs, diag) {
            Some(config) => Some((rel_dir_of(fs), config)),
            None => None,
        },
        None => None,
    }
}

/// The Maven entry of the file `fs`: its directory, with the POM read (its
/// modules checked against the known files).
fn pom_entry<F: Fn(String) -> Option<Vec<u8>>>(read: &F, project_root: &str, fs: &str, known_files: &FileSet, diag: &mut DiagnosticCollector) -> (r: Option<(String, MavenConfig)>)
    requires
        forall|p: String| read.requires((p,)),
        is_pom_file(fs@),
    ensures
        pom_entry_ok(*read, project_root@, fs@, keyed_view(r)),
{
    let text = read_text(read, under(project_root, fs));
    assert(text_read(*read, path_join_spec(project_root@, fs@), opt_view(text)));
    match text {
        Some(content) => match parse_pom_xml(content.as_str(), fs, diag) {
            Some(config) => {
                let rel_dir = rel_dir_of(fs);
                check_maven_modules(&config.modules, rel_dir.as_str(), known_files, diag);
                Some((rel_dir, config))
            },
            None => None,
        },
        None => None,
    }
}

/// The bundler entry of the file `fs`: its directory, with the Vite (when
/// `is_vite`) or Webpack configuration read.
fn bundler_entry<F: Fn(String) -> Option<Vec<u8>>>(read: &F, project_root: &str, fs: &str, is_vite: bool, diag: &mut DiagnosticCollector) -> (r: Option<(String, BundlerConfig)>)
    requires
        forall|p: String| read.requires((p,)),
        is_bundler_file(fs@),
        is_vite == is_vite_file(fs@),
    ensures
        bundler_entry_ok(*read, project_root@, fs@, keyed_view(r)),
{
    let bpath = under(project_root, fs);
    let ghost bp = bpath;
    let got = read(bpath);
    let ghost gb = got;
    assert(read.ensures((bp,), gb));
    match got {
        Some(bytes) => {
            let ghost d0 = diag.codes();
            let config = if is_vite {
                parse_vite_config(bytes.as_slice(), fs, diag)
            } else {
                parse_webpack_config(bytes.as_slice(), fs, diag)
            };
            let r = match config {
                Some(c) => Some((rel_dir_of(fs), c)),
                None => None,
            };
            proof {
                assert(entry_value(keyed_view(r)) == config);
                if parses(Grammar::TypeScript, bytes@) {
                    let d1 = diag.codes();
                    let t = choose|t: SyntaxTree| #[trigger] parsed_as(Grammar::TypeScript, bytes@, t) && if is_vite {
                        vite_result(&t, fs@, config, d0, d1)
                    } else {
                        webpack_result(&t, fs@, config, d0, d1)
                    };
                    assert(parsed_as(Grammar::TypeScript, bytes@, t) && bundler_outcome(&t, fs@, entry_value(keyed_view(r)), d0, d1));
                }
            }
            r
        },
        None => None,
    }
}

/// The Gradle entry of the build file `fs`: its directory, with the build
/// read and the subprojects of the first readable settings file beside it
/// (checked against the known files).
fn gradle_entry<F: Fn(String) -> Option<Vec<u8>>>(read: &F, project_root: &str, fs: &str, known_files: &FileSet, diag: &mut DiagnosticCollector) -> (r: Option<(String, GradleConfig)>)
    requires
        forall|p: String| read.requires((p,)),
        is_gradle_file(fs@),
    ensures
        gradle_entry_ok(*read, project_root@, fs@, keyed_view(r)),
{
    let text = read_text(read, under(project_root, fs));
    assert(text_read(*read, path_join_spec(project_root@, fs@), opt_view(text)));
    let content = match text {
        Some(c) => c,
        None => return None,
    };
    let rel_dir = rel_dir_of(fs);
    if chars_of(content.as_str()).len() > 0x7fff_ffff {
        return None;
    }
    let mut config = match parse_build_gradle(content.as_str(), rel_dir.as_str(), diag) {
        Some(c) => c,
        None => return None,
    };
    let ghost scan = gradle_file_scan(content@);
    let p0 = in_dir(rel_dir.as_str(), "settings.gradle");
    let t0 = read_text(read, under(project_root, p0.as_str()));
    assert(text_read(*read, path_join_spec(project_root@, in_dir_spec(rel_dir@, "settings.gradle"@)), opt_view(t0)));
    match t0 {
        Some(sc) => {
            let subprojects = parse_settings_gradle(sc.as_str());
            check_gradle_subprojects(&subprojects, rel_dir.as_str(), known_files, diag);
            config.subprojects = subprojects;
            assert(subprojects_of(config, sc@));
        },
        None => {
            let p1 = in_dir(rel_dir.as_str(), "settings.gradle.kts");
            let t1 = read_text(read, under(project_root, p1.as_str()));
            assert(text_read(*read, path_join_spec(project_root@, in_dir_spec(rel_dir@, "settings.gradle.kts"@)), opt_view(t1)));
            match t1 {
                Some(sc) => {
                    let subprojects = parse_settings_gradle(sc.as_str());
                    check_gradle_subprojects(&subprojects, rel_dir.as_str(), known_files, diag);
                    config.subprojects = subprojects;
                    assert(subprojects_of(config, sc@));
                },
                None => {},
            }
        },
    }
    Some((rel_dir, config))
}

/// Discover and read the configuration files of a project whose files are
/// `known_files`: each `tsconfig.json` with its `extends` chain (through
/// `load_ts`), `go.mod` and `pyproject.toml` at the root, each `.csproj`,
/// the first `.sln` in text order (`W037MultipleSlnFiles` when there are
/// more), each Gradle build with its settings, each `pom.xml`, each Vite
/// and Webpack configuration, the first readable `turbo.json`, and the
/// Next.js routes. `read` gives a file's bytes; `abs_root` is the root as
/// the tsconfig loader names it, so that tsconfig directories become
/// project-relative. Each map holds, per key, what the last file of its
/// kind that gave a configuration for that key gave ([`filled`]).
#[verifier::spinoff_prover]
pub fn discover_config<F: Fn(String) -> Option<Vec<u8>>, L: Fn(String) -> TsLoad>(
    project_root: &str,
    abs_root: &str,
    known_files: &FileSet,
    read: F,
    load_ts: L,
    diag: &mut DiagnosticCollector,
) -> (r: ProjectConfig)
    requires
        forall|p: String| read.requires((p,)),
        forall|p: String| load_ts.requires((p,)),
        forall|i: int| 0 <= i < known_files@.len() ==> !pages_rest_is_bare_ext(#[trigger] known_files@[i]),
    ensures
        exists|t: Option<Seq<char>>|
            #[trigger] text_read(read, path_join_spec(project_root@, "go.mod"@), t) && go_result(t, r.go_config),
        exists|t: Option<Seq<char>>|
            #[trigger] text_read(read, path_join_spec(project_root@, "pyproject.toml"@), t) && py_result(t, r.py_config),
        sln_files(known_files@).len() == 0 ==> r.dotnet_solution is None,
        sln_files(known_files@).len() > 0 ==> exists|t: Option<Seq<char>>|
            #[trigger] text_read(read, path_join_spec(project_root@, sln_files(known_files@)[0]), t)
                && sln_result(t, sln_files(known_files@)[0], r.dotnet_solution),
        sln_files(known_files@).len() > 1 ==> final(diag).codes().contains(WarningCode::W037MultipleSlnFiles),
        r.next_routes matches Some(info) ==> route_views(info.routes@) == all_routes_spec(known_files@)
            && info.router_type == router_type_spec(known_files@),
        r.next_routes is None <==> all_routes_spec(known_files@).len() == 0,
        filled(&r.ts_configs, known_files@, ts_entries(load_ts, project_root@, abs_root@)),
        filled(&r.csproj_configs, known_files@, csproj_entries(read, project_root@)),
        filled(&r.gradle_configs, known_files@, gradle_entries(read, project_root@)),
        filled(&r.maven_configs, known_files@, pom_entries(read, project_root@)),
        filled(&r.bundler_configs, known_files@, bundler_entries(read, project_root@)),
        exists|bs: Seq<Option<Vec<u8>>>| #[trigger] turbo_reads(read, project_root@, known_files@, bs, r.turbo_config),
{
    let files = known_files.paths();
    let mut ts_configs: TextMap<TsConfig> = TextMap::new();
    let mut csproj_configs: TextMap<CsprojConfig> = TextMap::new();
    let mut gradle_configs: TextMap<GradleConfig> = TextMap::new();
    let mut maven_configs: TextMap<MavenConfig> = TextMap::new();
    let mut bundler_configs: TextMap<BundlerConfig> = TextMap::new();
    let mut turbo_config: Option<TurboConfig> = None;
    let mut turbo_seen = false;
    let mut i: usize = 0;
    let ghost kf = known_files@;
    let ghost te = ts_entries(load_ts, project_root@, abs_root@);
    let ghost ce = csproj_entries(read, project_root@);
    let ghost ge = gradle_entries(read, project_root@);
    let ghost me = pom_entries(read, project_root@);
    let ghost be = bundler_entries(read, project_root@);
    let ghost mut ts_outs: Seq<Option<(Seq<char>, TsConfig)>> = Seq::empty();
    let ghost mut cs_outs: Seq<Option<(Seq<char>, CsprojConfig)>> = Seq::empty();
    let ghost mut gr_outs: Seq<Option<(Seq<char>, GradleConfig)>> = Seq::empty();
    let ghost mut mv_outs: Seq<Option<(Seq<char>, MavenConfig)>> = Seq::empty();
    let ghost mut bd_outs: Seq<Option<(Seq<char>, BundlerConfig)>> = Seq::empty();
    let ghost mut bs: Seq<Option<Vec<u8>>> = Seq::empty();
    let ghost mut tj: int = 0;
    let ghost mut tc0: Seq<WarningCode> = Seq::empty();
    let ghost mut tc1: Seq<WarningCode> = Seq::empty();
    proof {
        assert(kf.take(0) =~= Seq::<Seq<char>>::empty());
    }
    while i < files.len()
        invariant
            forall|p: String| read.requires((p,)),
            forall|p: String| load_ts.requires((p,)),
            i <= files@.len(),
            kf == known_files@,
            crate::model::path_views(files@) == kf,
            te == ts_entries(load_ts, project_root@, abs_root@),
            ce == csproj_entries(read, project_root@),
            ge == gradle_entries(read, project_root@),
            me == pom_entries(read, project_root@),
            be == bundler_entries(read, project_root@),
            fills(&ts_configs, kf.take(i as int), te, ts_outs),
            fills(&csproj_configs, kf.take(i as int), ce, cs_outs),
            fills(&gradle_configs, kf.take(i as int), ge, gr_outs),
            fills(&maven_configs, kf.take(i as int), me, mv_outs),
            fills(&bundler_configs, kf.take(i as int), be, bd_outs),
            turbo_prefix(read, project_root@, kf, bs, i as int, turbo_seen, tj, turbo_config, tc0, tc1),
        decreases files.len() - i,
    {
        let f = &files[i];
        let fs = f.as_str();
        let ghost cm0 = csproj_configs;
        let ghost tm0 = ts_configs;
        let ghost gm0 = gradle_configs;
        let ghost mm0 = maven_configs;
        let ghost bm0 = bundler_configs;
        assert(kf[i as int] == f@);
        let ghost mut o_ts: Option<(Seq<char>, TsConfig)> = None;
        let ghost mut o_cs: Option<(Seq<char>, CsprojConfig)> = None;
        let ghost mut o_gr: Option<(Seq<char>, GradleConfig)> = None;
        let ghost mut o_mv: Option<(Seq<char>, MavenConfig)> = None;
        let ghost mut o_bd: Option<(Seq<char>, BundlerConfig)> = None;
        if named(f, "tsconfig.json") {
            let e = ts_entry(project_root, abs_root, fs, &load_ts, diag);
            proof {
                o_ts = keyed_view(e);
            }
            match e {
                Some((k, c)) => {
                    ts_configs.insert(k, c);
                },
                None => {},
            }
        }
        if ends_with(&chars_of(fs), &chars_of(".csproj")) {
            let e = csproj_entry(&read, project_root, fs, diag);
            proof {
                o_cs = keyed_view(e);
            }
            match e {
                Some((k, c)) => {
                    csproj_configs.insert(k, c);
                },
                None => {},
            }
        }
        if named(f, "build.gradle") || named(f, "build.gradle.kts") {
            let e = gradle_entry(&read, project_root, fs, known_files, diag);
            proof {
                o_gr = keyed_view(e);
            }
            match e {
                Some((k, c)) => {
                    gradle_configs.insert(k, c);
                },
                None => {},
            }
        }
        if named(f, "pom.xml") {
            let e = pom_entry(&read, project_root, fs, known_files, diag);
            proof {
                o_mv = keyed_view(e);
            }
            match e {
                Some((k, c)) => {
                    maven_configs.insert(k, c);
                },
                None => {},
            }
        }
        let is_vite = named(f, "vite.config.ts") || named(f, "vite.config.js") || named(f, "vite.config.mjs");
        let is_webpack = named(f, "webpack.config.js") || named(f, "webpack.config.ts");
        if is_vite || is_webpack {
            let e = bundler_entry(&read, project_root, fs, is_vite, diag);
            proof {
                o_bd = keyed_view(e);
            }
            match e {
                Some((k, c)) => {
                    bundler_configs.insert(k, c);
                },
                None => {},
            }
        }
        let ghost bs0 = bs;
        let ghost seen0 = turbo_seen;
        let ghost tj0 = tj;
        let ghost t0 = turbo_config;
        let ghost tc00 = tc0;
        let ghost tc10 = tc1;
        let ghost mut b_i: Option<Vec<u8>> = None;
        let ghost mut tpg: String = arbitrary();
        if !turbo_seen && named(f, "turbo.json") {
            let tp = under(project_root, fs);
            proof {
                tpg = tp;
            }
            let got = read(tp);
            proof {
                b_i = got;
                assert(read.ensures((tpg,), b_i));
            }
            match got {
                Some(bytes) => {
                    turbo_seen = true;
                    let ghost d0 = diag.codes();
                    turbo_config = parse_turbo_config(bytes.as_slice(), fs, diag);
                    proof {
                        tj = i as int;
                        tc0 = d0;
                        tc1 = diag.codes();
                    }
                },
                None => {},
            }
        }
        proof {
            lemma_turbo_step(read, project_root@, kf, bs0, i as int, seen0, tj0, t0, tc00, tc10, b_i, tpg, turbo_seen, tj,
                turbo_config, tc0, tc1);
            bs = bs0.push(b_i);
            lemma_fills_step(tm0, ts_configs, kf, i as int, te, ts_outs, o_ts);
            lemma_fills_step(cm0, csproj_configs, kf, i as int, ce, cs_outs, o_cs);
            lemma_fills_step(gm0, gradle_configs, kf, i as int, ge, gr_outs, o_gr);
            lemma_fills_step(mm0, maven_configs, kf, i as int, me, mv_outs, o_mv);
            lemma_fills_step(bm0, bundler_configs, kf, i as int, be, bd_outs, o_bd);
            ts_outs = ts_outs.push(o_ts);
            cs_outs = cs_outs.push(o_cs);
            gr_outs = gr_outs.push(o_gr);
            mv_outs = mv_outs.push(o_mv);
            bd_outs = bd_outs.push(o_bd);
        }
        i += 1;
    }
    assert(kf.take(files@.len() as int) =~= kf);
    proof {
        assert(fills(&ts_configs, kf, te, ts_outs));
        assert(fills(&csproj_configs, kf, ce, cs_outs));
        assert(fills(&gradle_configs, kf, ge, gr_outs));
        assert(fills(&maven_configs, kf, me, mv_outs));
        assert(fills(&bundler_configs, kf, be, bd_outs));
        lemma_turbo_done(read, project_root@, kf, bs, turbo_seen, tj, turbo_config, tc0, tc1);
        assert(turbo_reads(read, project_root@, kf, bs, turbo_config));
    }
    let go_text = read_text(&read, under(project_root, "go.mod"));
    let go_config = match &go_text {
        Some(c) => parse_go_mod(c.as_str()),
        None => None,
    };
    assert(go_result(opt_view(go_text), go_config));
    let py_text = read_text(&read, under(project_root, "pyproject.toml"));
    let py_config = match &py_text {
        Some(c) => parse_pyproject(c.as_str()),
        None => None,
    };
    assert(py_result(opt_view(py_text), py_config));
    let slns = find_sln_files(known_files);
    let dotnet_solution = if slns.len() == 0 {
        None
    } else {
        if slns.len() > 1 {
            let mut msg = chars_of("multiple .sln files found (");
            crate::text::push_all(&mut msg, &decimal(slns.len() as u64));
            crate::text::push_all(&mut msg, &chars_of("), using first alphabetically: "));
            crate::text::push_all(&mut msg, &chars_of(slns[0].as_str()));
            diag.warn(Warning {
                code: WarningCode::W037MultipleSlnFiles,
                path: CanonicalPath::new(slns[0].as_str()),
                message: string_of(&msg),
                detail: None,
            });
            assert(diag.codes().last() == WarningCode::W037MultipleSlnFiles);
        }
        let ghost c1 = diag.codes();
        let text = read_text(&read, under(project_root, slns[0].as_str()));
        let s = match &text {
            Some(c) => parse_sln(c.as_str(), slns[0].as_str(), diag),
            None => None,
        };
        proof {
            assert(slns@.map_values(|s: String| s@)[0] == slns@[0]@);
            if slns.len() > 1 {
                assert(c1.contains(WarningCode::W037MultipleSlnFiles));
                let x = choose|x: int| 0 <= x < c1.len() && c1[x] == WarningCode::W037MultipleSlnFiles;
                assert(diag.codes()[x] == WarningCode::W037MultipleSlnFiles);
            }
            assert(sln_result(opt_view(text), slns@[0]@, s));
        }
        s
    };
    let next_routes = discover_next_routes(project_root, known_files, diag);
    ProjectConfig {
        ts_configs,
        go_config,
        py_config,
        csproj_configs,
        dotnet_solution,
        gradle_configs,
        maven_configs,
        bundler_configs,
        turbo_config,
        next_routes,
    }
}

} // verus!
