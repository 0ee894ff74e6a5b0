//! Java: imports resolved to source files, by convention or through the
//! Gradle and Maven build configuration.
use vstd::prelude::*;
use crate::model::{canon_spec, first_direct_child, CanonicalPath, FileSet, TextMap, WorkspaceInfo};
use crate::parser::config::gradle::GradleConfig;
use crate::parser::config::maven::MavenConfig;
use crate::parser::traits::{
    exports_view, imports_view, strings_view, symbols_view, ExportView, ImportKind, ImportResolver, ImportView, RawExport,
    RawImport, SymbolDef, SymbolKind, SymbolView, Visibility,
};
use crate::parser::typescript::{clone_opt_string, line_sig, line_sig_exec, opt_str, span_exec, span_of};
use crate::syntax::{first_child_of_kind, first_some, flat_map, lemma_first_some_step, lemma_flat_map_step, SyntaxTree};
use crate::parser::typescript::{first_known, first_known_files};
use crate::text::{chars_of, ends_with, string_of, trim, trim_spec, replace_char, replace_char_spec, rfind_char, rfind_char_spec, slice, split_char, split_spec, views};

verus! {

/// `s` with every trailing copy of `p` removed (`str::trim_end_matches`).
pub open spec fn trim_end_pat(s: Seq<char>, p: Seq<char>) -> Seq<char>
    decreases s.len(),
{
    if p.len() > 0 && p.is_suffix_of(s) {
        trim_end_pat(s.take(s.len() - p.len()), p)
    } else {
        s
    }
}

/// The class an import names: a static import names a member, so its last
/// dotted segment is dropped.
pub open spec fn class_path(path: Seq<char>, symbols: Seq<Seq<char>>) -> Seq<char> {
    if symbols.contains("static"@) {
        match rfind_char_spec(path, '.') {
            Some(i) => path.take(i),
            None => path,
        }
    } else {
        path
    }
}

/// `a.b` for the first two dotted segments of `s`, when it has two.
pub open spec fn top_two(s: Seq<char>) -> Option<Seq<char>> {
    let parts = split_spec(s, '.');
    if parts.len() >= 2 {
        Some(parts[0] + "."@ + parts[1])
    } else {
        None
    }
}

/// Whether an import lies outside the project's group: both have two
/// dotted segments and those differ.
pub open spec fn is_external(group: Option<Seq<char>>, path: Seq<char>) -> bool {
    match group {
        Some(g) => top_two(g) is Some && top_two(path) is Some && top_two(path) != top_two(g),
        None => false,
    }
}

/// The directory whose direct `.java` files a wildcard import of package
/// directory `d` may name, under source directory `src` of project `base`.
pub open spec fn wild_dir(base: Seq<char>, src: Seq<char>, d: Seq<char>) -> Seq<char> {
    if base.len() == 0 {
        src + "/"@ + d + "/"@
    } else {
        base + "/"@ + src + "/"@ + d + "/"@
    }
}

/// The file of class path `fp` under source directory `src` of project `base`.
pub open spec fn class_file(base: Seq<char>, src: Seq<char>, fp: Seq<char>) -> Seq<char> {
    if base.len() == 0 {
        canon_spec(src + "/"@ + fp + ".java"@)
    } else {
        canon_spec(base + "/"@ + src + "/"@ + fp + ".java"@)
    }
}

/// The directories tried for a wildcard import: the configured source
/// directories, then `src/main/java`, then the package directory itself.
pub open spec fn wild_dirs(dirs: Seq<(Seq<char>, Seq<char>)>, d: Seq<char>) -> Seq<Seq<char>> {
    dirs.map_values(|x: (Seq<char>, Seq<char>)| wild_dir(x.0, x.1, d)) + seq!["src/main/java/"@ + d + "/"@, d + "/"@]
}

/// The files tried for a class import, in order.
pub open spec fn class_files(dirs: Seq<(Seq<char>, Seq<char>)>, fp: Seq<char>) -> Seq<Seq<char>> {
    dirs.map_values(|x: (Seq<char>, Seq<char>)| class_file(x.0, x.1, fp))
        + seq![canon_spec("src/main/java/"@ + fp + ".java"@), canon_spec(fp + ".java"@)]
}

/// The first `.java` file directly in the first of `ds` that has one.
pub open spec fn first_in_dirs(ds: Seq<Seq<char>>, files: Seq<Seq<char>>) -> Option<Seq<char>>
    decreases ds.len(),
{
    if ds.len() == 0 {
        None
    } else if first_direct_child(files, ds[0], ".java"@) is Some {
        first_direct_child(files, ds[0], ".java"@)
    } else {
        first_in_dirs(ds.drop_first(), files)
    }
}

/// What the Java resolvers make of an import, given the source directories
/// `(project directory, source directory)` and the project group.
pub open spec fn java_resolve_spec(
    dirs: Seq<(Seq<char>, Seq<char>)>,
    group: Option<Seq<char>>,
    path: Seq<char>,
    symbols: Seq<Seq<char>>,
    files: Seq<Seq<char>>,
) -> Option<Seq<char>> {
    if is_external(group, path) {
        None
    } else if ".*"@.is_suffix_of(path) {
        let d = replace_char_spec(trim_end_pat(path, ".*"@), '.', '/');
        first_in_dirs(wild_dirs(dirs, d), files)
    } else {
        let fp = replace_char_spec(class_path(path, symbols), '.', '/');
        first_known(class_files(dirs, fp), files)
    }
}

/// The source directories of a Gradle build and its subprojects (keyed by
/// their directories), in order.
pub open spec fn gradle_sub_dirs(subs: Seq<(String, GradleConfig)>) -> Seq<(Seq<char>, Seq<char>)>
    decreases subs.len(),
{
    if subs.len() == 0 {
        Seq::empty()
    } else {
        gradle_sub_dirs(subs.drop_last()) + subs.last().1.source_dirs@.map_values(|s: String| (subs.last().0@, s@))
    }
}

/// The source directories of a Gradle build.
pub open spec fn gradle_dirs(c: GradleConfig, subs: Seq<(String, GradleConfig)>) -> Seq<(Seq<char>, Seq<char>)> {
    c.source_dirs@.map_values(|s: String| (c.config_dir@, s@)) + gradle_sub_dirs(subs)
}

/// The source directory of a POM, `src/main/java` by default.
pub open spec fn maven_src(c: MavenConfig) -> Seq<char> {
    match c.source_directory {
        Some(d) => d@,
        None => "src/main/java"@,
    }
}

/// The source directories of the POMs, in key order.
pub open spec fn maven_dirs(es: Seq<(String, MavenConfig)>) -> Seq<(Seq<char>, Seq<char>)>
    decreases es.len(),
{
    if es.len() == 0 {
        Seq::empty()
    } else {
        maven_dirs(es.drop_last()).push((es.last().1.config_dir@, maven_src(es.last().1)))
    }
}

/// The build configuration of a Java project.
#[derive(Debug)]
pub enum JavaBuildConfig {
    Gradle { config: GradleConfig, subconfigs: TextMap<GradleConfig> },
    Maven { configs: TextMap<MavenConfig> },
    Both {
        gradle_config: GradleConfig,
        gradle_subconfigs: TextMap<GradleConfig>,
        maven_configs: TextMap<MavenConfig>,
    },
}

impl JavaBuildConfig {
    /// The source directories, Gradle's when there are both.
    pub open spec fn source_dirs(&self) -> Seq<(Seq<char>, Seq<char>)> {
        match self {
            JavaBuildConfig::Gradle { config, subconfigs } => gradle_dirs(*config, subconfigs.spec_entries()),
            JavaBuildConfig::Maven { configs } => maven_dirs(configs.spec_entries()),
            JavaBuildConfig::Both { gradle_config, gradle_subconfigs, .. } => gradle_dirs(*gradle_config, gradle_subconfigs.spec_entries()),
        }
    }

    /// The project group: Gradle's, or that of the first POM.
    pub open spec fn group(&self) -> Option<Seq<char>> {
        match self {
            JavaBuildConfig::Gradle { config, .. } => match config.group {
                Some(g) => Some(g@),
                None => None,
            },
            JavaBuildConfig::Maven { configs } => if configs.spec_entries().len() > 0 {
                match configs.spec_entries()[0].1.group_id {
                    Some(g) => Some(g@),
                    None => None,
                }
            } else {
                None
            },
            JavaBuildConfig::Both { gradle_config, .. } => match gradle_config.group {
                Some(g) => Some(g@),
                None => None,
            },
        }
    }
}

/// `s` with every trailing `.*` removed.
fn trim_wildcards(s: &Vec<char>) -> (r: Vec<char>)
    ensures
        r@ == trim_end_pat(s@, ".*"@),
{
    let pat = chars_of(".*");
    proof {
        reveal_strlit(".*");
    }
    let mut v = slice(s, 0, s.len());
    assert(s@.subrange(0, s@.len() as int) =~= s@);
    while ends_with(&v, &pat)
        invariant
            pat@ == ".*"@,
            pat@.len() == 2,
            trim_end_pat(v@, ".*"@) == trim_end_pat(s@, ".*"@),
        decreases v@.len(),
    {
        assert(v@.len() >= 2);
        let ghost old_v = v@;
        v = slice(&v, 0, v.len() - 2);
        assert(trim_end_pat(old_v, ".*"@) == trim_end_pat(v@, ".*"@));
    }
    v
}

/// `a.b` for the first two dotted segments of `s`.
fn top_two_exec(s: &Vec<char>) -> (r: Option<Vec<char>>)
    ensures
        match r {
            Some(t) => top_two(s@) == Some(t@),
            None => top_two(s@) is None,
        },
{
    let parts = split_char(s, '.');
    if parts.len() >= 2 {
        let mut t = slice(&parts[0], 0, parts[0].len());
        t.push('.');
        crate::text::push_all(&mut t, &parts[1]);
        proof {
            reveal_strlit(".");
            assert(parts@[0]@.subrange(0, parts@[0]@.len() as int) =~= parts@[0]@);
            assert(views(parts@)[0] == parts@[0]@);
            assert(views(parts@)[1] == parts@[1]@);
        }
        assert(t@ =~= parts@[0]@ + "."@ + parts@[1]@);
        Some(t)
    } else {
        None
    }
}

/// Whether an import lies outside the project's group.
fn is_external_exec(group: &Option<Vec<char>>, path: &Vec<char>) -> (r: bool)
    ensures
        r == is_external(match group { Some(g) => Some(g@), None => None }, path@),
{
    match group {
        Some(g) => match (top_two_exec(g), top_two_exec(path)) {
            (Some(a), Some(b)) => !crate::text::eq(&a, &b),
            _ => false,
        },
        None => false,
    }
}

/// `parts` concatenated.
fn cat(parts: &Vec<&Vec<char>>) -> (r: Vec<char>)
    ensures
        r@ == crate::text::concat_all(parts@.map_values(|p: &Vec<char>| p@)),
{
    let mut r: Vec<char> = Vec::new();
    let ghost ps = parts@.map_values(|p: &Vec<char>| p@);
    let mut i: usize = 0;
    while i < parts.len()
        invariant
            0 <= i <= parts@.len(),
            ps == parts@.map_values(|p: &Vec<char>| p@),
            r@ == crate::text::concat_all(ps.take(i as int)),
        decreases parts.len() - i,
    {
        crate::text::push_all(&mut r, parts[i]);
        assert(ps.take(i + 1).drop_last() =~= ps.take(i as int));
        i += 1;
    }
    assert(ps.take(ps.len() as int) =~= ps);
    r
}

/// Resolve an import against source directories `dirs` and project group `group`.
fn resolve_java(
    dirs: &Vec<(Vec<char>, Vec<char>)>,
    group: &Option<Vec<char>>,
    import: &RawImport,
    files: &FileSet,
) -> (r: Option<CanonicalPath>)
    ensures
        match r {
            Some(p) => java_resolve_spec(
                dirs@.map_values(|x: (Vec<char>, Vec<char>)| (x.0@, x.1@)),
                match group { Some(g) => Some(g@), None => None },
                import.path@,
                strings_view(import.symbols@),
                files@,
            ) == Some(p@),
            None => java_resolve_spec(
                dirs@.map_values(|x: (Vec<char>, Vec<char>)| (x.0@, x.1@)),
                match group { Some(g) => Some(g@), None => None },
                import.path@,
                strings_view(import.symbols@),
                files@,
            ) is None,
        },
{
    let ghost ds = dirs@.map_values(|x: (Vec<char>, Vec<char>)| (x.0@, x.1@));
    let path = chars_of(import.path.as_str());
    if is_external_exec(group, &path) {
        return None;
    }
    let slash = chars_of("/");
    let java = chars_of(".java");
    proof {
        reveal_strlit("/");
        reveal_strlit(".java");
        reveal_strlit(".*");
        reveal_strlit("src/main/java/");
    }
    let smj = chars_of("src/main/java/");
    if ends_with(&path, &chars_of(".*")) {
        let d = replace_char(&trim_wildcards(&path), '.', '/');
        let mut cands: Vec<Vec<char>> = Vec::new();
        let mut i: usize = 0;
        while i < dirs.len()
            invariant
                0 <= i <= dirs@.len(),
                ds == dirs@.map_values(|x: (Vec<char>, Vec<char>)| (x.0@, x.1@)),
                slash@ == "/"@,
                views(cands@) == ds.take(i as int).map_values(|x: (Seq<char>, Seq<char>)| wild_dir(x.0, x.1, d@)),
            decreases dirs.len() - i,
        {
            let base = &dirs[i].0;
            let src = &dirs[i].1;
            let c = if base.len() == 0 {
                cat(&vec![src, &slash, &d, &slash])
            } else {
                cat(&vec![base, &slash, src, &slash, &d, &slash])
            };
            proof {
                reveal_with_fuel(crate::text::concat_all, 7);
            }
            assert(c@ =~= wild_dir(ds[i as int].0, ds[i as int].1, d@));
            let ghost before = views(cands@);
            cands.push(c);
            assert(views(cands@) =~= before.push(c@));
            assert(ds.take(i + 1).map_values(|x: (Seq<char>, Seq<char>)| wild_dir(x.0, x.1, d@))
                =~= ds.take(i as int).map_values(|x: (Seq<char>, Seq<char>)| wild_dir(x.0, x.1, d@)).push(c@));
            i += 1;
        }
        let c1 = cat(&vec![&smj, &d, &slash]);
        let c2 = cat(&vec![&d, &slash]);
        proof {
            reveal_with_fuel(crate::text::concat_all, 4);
        }
        let ghost before = views(cands@);
        cands.push(c1);
        cands.push(c2);
        assert(ds.take(ds.len() as int) =~= ds);
        assert(views(cands@) =~= wild_dirs(ds, d@));
        let ghost cs = views(cands@);
        let ghost gv = match group { Some(g) => Some(g@), None => None };
        assert(cs.skip(0) =~= cs);
        assert(java_resolve_spec(ds, gv, import.path@, strings_view(import.symbols@), files@) == first_in_dirs(cs, files@));
        let mut k: usize = 0;
        while k < cands.len()
            invariant
                0 <= k <= cs.len(),
                cs == views(cands@),
                java@ == ".java"@,
                ds == dirs@.map_values(|x: (Vec<char>, Vec<char>)| (x.0@, x.1@)),
                gv == match group { Some(g) => Some(g@), None => None },
                java_resolve_spec(ds, gv, import.path@, strings_view(import.symbols@), files@) == first_in_dirs(cs, files@),
                first_in_dirs(cs, files@) == first_in_dirs(cs.skip(k as int), files@),
            decreases cands.len() - k,
        {
            assert(cs.skip(k as int)[0] == cs[k as int]);
            assert(cs.skip(k as int).drop_first() =~= cs.skip(k + 1));
            let hit = files.find_direct_child(&cands[k], &java);
            if hit.is_some() {
                assert(first_direct_child(files@, cs[k as int], ".java"@) is Some);
                assert(first_in_dirs(cs.skip(k as int), files@) == first_direct_child(files@, cs[k as int], ".java"@));
                return hit;
            }
            k += 1;
        }
        return None;
    }
    let has_static = {
        let mut found = false;
        let mut j: usize = 0;
        while j < import.symbols.len()
            invariant
                0 <= j <= import.symbols@.len(),
                found == strings_view(import.symbols@).take(j as int).contains("static"@),
            decreases import.symbols.len() - j,
        {
            let ghost sv = strings_view(import.symbols@);
            assert(sv.take(j + 1) =~= sv.take(j as int).push(sv[j as int]));
            if crate::text::eq(&chars_of(import.symbols[j].as_str()), &chars_of("static")) {
                found = true;
            }
            proof {
                reveal_strlit("static");
                if found {
                    if sv[j as int] == "static"@ {
                        assert(sv.take(j + 1)[j as int] == "static"@);
                    } else {
                        let w = choose|w: int| 0 <= w < j && sv.take(j as int)[w] == "static"@;
                        assert(sv.take(j + 1)[w] == "static"@);
                    }
                }
            }
            j += 1;
        }
        assert(strings_view(import.symbols@).take(import.symbols@.len() as int) =~= strings_view(import.symbols@));
        found
    };
    let cp = if has_static {
        match rfind_char(&path, '.') {
            Some(i) => slice(&path, 0, i),
            None => path.clone(),
        }
    } else {
        path.clone()
    };
    assert(cp@ == class_path(path@, strings_view(import.symbols@)));
    let fp = replace_char(&cp, '.', '/');
    let mut cands: Vec<Vec<char>> = Vec::new();
    let mut i: usize = 0;
    while i < dirs.len()
        invariant
            0 <= i <= dirs@.len(),
            ds == dirs@.map_values(|x: (Vec<char>, Vec<char>)| (x.0@, x.1@)),
            slash@ == "/"@,
            java@ == ".java"@,
            views(cands@) == ds.take(i as int).map_values(|x: (Seq<char>, Seq<char>)| class_file(x.0, x.1, fp@)),
        decreases dirs.len() - i,
    {
        let base = &dirs[i].0;
        let src = &dirs[i].1;
        let raw = if base.len() == 0 {
            cat(&vec![src, &slash, &fp, &java])
        } else {
            cat(&vec![base, &slash, src, &slash, &fp, &java])
        };
        proof {
            reveal_with_fuel(crate::text::concat_all, 7);
        }
        let c = crate::model::canonicalize(&raw);
        assert(c@ =~= class_file(ds[i as int].0, ds[i as int].1, fp@));
        let ghost before = views(cands@);
        cands.push(c);
        assert(views(cands@) =~= before.push(c@));
        assert(ds.take(i + 1).map_values(|x: (Seq<char>, Seq<char>)| class_file(x.0, x.1, fp@))
            =~= ds.take(i as int).map_values(|x: (Seq<char>, Seq<char>)| class_file(x.0, x.1, fp@)).push(c@));
        i += 1;
    }
    let c1 = crate::model::canonicalize(&cat(&vec![&smj, &fp, &java]));
    let c2 = crate::model::canonicalize(&cat(&vec![&fp, &java]));
    proof {
        reveal_with_fuel(crate::text::concat_all, 4);
    }
    cands.push(c1);
    cands.push(c2);
    assert(ds.take(ds.len() as int) =~= ds);
    assert(views(cands@) =~= class_files(ds, fp@));
    first_known_files(&cands, files)
}

/// Resolver of Java imports by the usual source layout.
#[derive(Debug)]
pub struct JavaResolver;

impl ImportResolver for JavaResolver {
    fn resolve(
        &self,
        import: &RawImport,
        _from_file: &CanonicalPath,
        known_files: &FileSet,
        _workspace: Option<&WorkspaceInfo>,
    ) -> (r: Option<CanonicalPath>)
        ensures
            match r {
                Some(p) => java_resolve_spec(Seq::empty(), None, import.path@, strings_view(import.symbols@), known_files@) == Some(p@),
                None => java_resolve_spec(Seq::empty(), None, import.path@, strings_view(import.symbols@), known_files@) is None,
            },
    {
        let dirs: Vec<(Vec<char>, Vec<char>)> = Vec::new();
        assert(dirs@.map_values(|x: (Vec<char>, Vec<char>)| (x.0@, x.1@)) =~= Seq::<(Seq<char>, Seq<char>)>::empty());
        resolve_java(&dirs, &None, import, known_files)
    }
}

/// Resolver of Java imports through the build configuration, falling back
/// on the usual layout.
#[derive(Debug)]
pub struct JavaConfigResolver {
    pub build_config: JavaBuildConfig,
}

/// Append the source directories of one Gradle build, under `base`.
fn push_gradle_dirs(base: &String, c: &GradleConfig, out: &mut Vec<(Vec<char>, Vec<char>)>)
    ensures
        final(out)@.map_values(|x: (Vec<char>, Vec<char>)| (x.0@, x.1@))
            == old(out)@.map_values(|x: (Vec<char>, Vec<char>)| (x.0@, x.1@)) + c.source_dirs@.map_values(|s: String| (base@, s@)),
{
    let ghost o = old(out)@.map_values(|x: (Vec<char>, Vec<char>)| (x.0@, x.1@));
    let ghost m = c.source_dirs@.map_values(|s: String| (base@, s@));
    let mut i: usize = 0;
    while i < c.source_dirs.len()
        invariant
            0 <= i <= c.source_dirs@.len(),
            m == c.source_dirs@.map_values(|s: String| (base@, s@)),
            out@.map_values(|x: (Vec<char>, Vec<char>)| (x.0@, x.1@)) == o + m.take(i as int),
        decreases c.source_dirs.len() - i,
    {
        let ghost before = out@;
        out.push((chars_of(base.as_str()), chars_of(c.source_dirs[i].as_str())));
        assert(out@.map_values(|x: (Vec<char>, Vec<char>)| (x.0@, x.1@))
            =~= before.map_values(|x: (Vec<char>, Vec<char>)| (x.0@, x.1@)).push((base@, c.source_dirs@[i as int]@)));
        assert(m.take(i + 1) =~= m.take(i as int).push(m[i as int]));
        i += 1;
    }
    assert(m.take(m.len() as int) =~= m);
}

/// The source directories of a Gradle build and its subprojects.
fn gradle_dirs_exec(c: &GradleConfig, subs: &TextMap<GradleConfig>) -> (r: Vec<(Vec<char>, Vec<char>)>)
    ensures
        r@.map_values(|x: (Vec<char>, Vec<char>)| (x.0@, x.1@)) == gradle_dirs(*c, subs.spec_entries()),
{
    let mut out: Vec<(Vec<char>, Vec<char>)> = Vec::new();
    assert(out@.map_values(|x: (Vec<char>, Vec<char>)| (x.0@, x.1@)) =~= Seq::<(Seq<char>, Seq<char>)>::empty());
    push_gradle_dirs(&c.config_dir, c, &mut out);
    let ghost head = c.source_dirs@.map_values(|s: String| (c.config_dir@, s@));
    let es = subs.entries();
    let ghost e = es@;
    let mut i: usize = 0;
    while i < es.len()
        invariant
            0 <= i <= e.len(),
            e == es@,
            e == subs.spec_entries(),
            out@.map_values(|x: (Vec<char>, Vec<char>)| (x.0@, x.1@)) == head + gradle_sub_dirs(e.take(i as int)),
        decreases es.len() - i,
    {
        push_gradle_dirs(&es[i].0, &es[i].1, &mut out);
        assert(e.take(i + 1).drop_last() =~= e.take(i as int));
        assert(head + gradle_sub_dirs(e.take(i + 1)) =~= head + gradle_sub_dirs(e.take(i as int))
            + e[i as int].1.source_dirs@.map_values(|s: String| (e[i as int].0@, s@)));
        i += 1;
    }
    assert(e.take(e.len() as int) =~= e);
    out
}

/// The source directories of the POMs.
fn maven_dirs_exec(configs: &TextMap<MavenConfig>) -> (r: Vec<(Vec<char>, Vec<char>)>)
    ensures
        r@.map_values(|x: (Vec<char>, Vec<char>)| (x.0@, x.1@)) == maven_dirs(configs.spec_entries()),
{
    let mut out: Vec<(Vec<char>, Vec<char>)> = Vec::new();
    let es = configs.entries();
    let ghost e = es@;
    let mut i: usize = 0;
    while i < es.len()
        invariant
            0 <= i <= e.len(),
            e == es@,
            e == configs.spec_entries(),
            out@.map_values(|x: (Vec<char>, Vec<char>)| (x.0@, x.1@)) == maven_dirs(e.take(i as int)),
        decreases es.len() - i,
    {
        let c = &es[i].1;
        let src = match &c.source_directory {
            Some(d) => chars_of(d.as_str()),
            None => chars_of("src/main/java"),
        };
        let ghost before = out@;
        out.push((chars_of(c.config_dir.as_str()), src));
        assert(e.take(i + 1).drop_last() =~= e.take(i as int));
        assert(out@.map_values(|x: (Vec<char>, Vec<char>)| (x.0@, x.1@))
            =~= before.map_values(|x: (Vec<char>, Vec<char>)| (x.0@, x.1@)).push((c.config_dir@, maven_src(*c))));
        i += 1;
    }
    assert(e.take(e.len() as int) =~= e);
    out
}

impl JavaConfigResolver {
    /// The source directories `(project directory, source directory)`.
    pub fn collect_source_dirs(&self) -> (r: Vec<(Vec<char>, Vec<char>)>)
        ensures
            r@.map_values(|x: (Vec<char>, Vec<char>)| (x.0@, x.1@)) == self.build_config.source_dirs(),
    {
        match &self.build_config {
            JavaBuildConfig::Gradle { config, subconfigs } => gradle_dirs_exec(config, subconfigs),
            JavaBuildConfig::Maven { configs } => maven_dirs_exec(configs),
            JavaBuildConfig::Both { gradle_config, gradle_subconfigs, .. } => gradle_dirs_exec(gradle_config, gradle_subconfigs),
        }
    }

    /// The project group.
    fn group_exec(&self) -> (r: Option<Vec<char>>)
        ensures
            match r {
                Some(g) => self.build_config.group() == Some(g@),
                None => self.build_config.group() is None,
            },
    {
        let g = match &self.build_config {
            JavaBuildConfig::Gradle { config, .. } => &config.group,
            JavaBuildConfig::Maven { configs } => {
                let es = configs.entries();
                if es.len() > 0 {
                    &es[0].1.group_id
                } else {
                    return None;
                }
            },
            JavaBuildConfig::Both { gradle_config, .. } => &gradle_config.group,
        };
        match g {
            Some(s) => Some(chars_of(s.as_str())),
            None => None,
        }
    }

    /// Whether an import lies outside the project's group.
    pub fn is_external_import(&self, import_path: &str) -> (r: bool)
        ensures
            r == is_external(self.build_config.group(), import_path@),
    {
        let g = self.group_exec();
        is_external_exec(&g, &chars_of(import_path))
    }
}

impl ImportResolver for JavaConfigResolver {
    fn resolve(
        &self,
        import: &RawImport,
        _from_file: &CanonicalPath,
        known_files: &FileSet,
        _workspace: Option<&WorkspaceInfo>,
    ) -> (r: Option<CanonicalPath>)
        ensures
            match r {
                Some(p) => java_resolve_spec(self.build_config.source_dirs(), self.build_config.group(), import.path@, strings_view(import.symbols@), known_files@) == Some(p@),
                None => java_resolve_spec(self.build_config.source_dirs(), self.build_config.group(), import.path@, strings_view(import.symbols@), known_files@) is None,
            },
    {
        let dirs = self.collect_source_dirs();
        let g = self.group_exec();
        resolve_java(&dirs, &g, import, known_files)
    }
}


// ---------------------------------------------------------------------------
// Imports
// ---------------------------------------------------------------------------

/// `s` without its trailing semicolons.
pub open spec fn trim_end_semis(s: Seq<char>) -> Seq<char>
    decreases s.len(),
{
    if s.len() > 0 && s.last() == ';' {
        trim_end_semis(s.drop_last())
    } else {
        s
    }
}

/// The path and static-ness an import declaration's text gives: trimmed,
/// without trailing semicolons, past the `import` keyword and an optional
/// `static`; nothing when the text does not start with `import`.
pub open spec fn java_import_text(text: Seq<char>) -> Option<(Seq<char>, bool)> {
    let b = trim_spec(trim_end_semis(trim_spec(text)));
    if "import"@.is_prefix_of(b) {
        let c = trim_spec(b.skip("import"@.len() as int));
        if "static"@.is_prefix_of(c) {
            Some((trim_spec(c.skip("static"@.len() as int)), true))
        } else {
            Some((c, false))
        }
    } else {
        None
    }
}

/// The import of a top-level node, if it is an import declaration with a path.
pub open spec fn java_decl_import(t: &SyntaxTree, n: int) -> Seq<ImportView> {
    if t.kind_of(n) == "import_declaration"@ {
        match java_import_text(t.text_at(n)) {
            Some((p, st)) => if p.len() == 0 {
                Seq::empty()
            } else {
                seq![
                    ImportView {
                        path: p,
                        symbols: if st {
                            seq!["static"@]
                        } else {
                            Seq::empty()
                        },
                        is_type_only: false,
                        kind: ImportKind::Regular,
                    },
                ]
            },
            None => Seq::empty(),
        }
    } else {
        Seq::empty()
    }
}

/// `java_decl_import` as a function of the node.
pub open spec fn java_decl_import_f(t: &SyntaxTree) -> spec_fn(usize) -> Seq<ImportView> {
    |n: usize| java_decl_import(t, n as int)
}

/// The imports of a Java file, in order.
pub open spec fn java_imports_spec(t: &SyntaxTree) -> Seq<ImportView> {
    flat_map(t.children_of(0), java_decl_import_f(t))
}

/// `trim_end_semis` on characters.
fn trim_end_semis_exec(v: &Vec<char>) -> (r: Vec<char>)
    ensures
        r@ == trim_end_semis(v@),
{
    let mut n = v.len();
    assert(v@.take(v@.len() as int) =~= v@);
    while n > 0 && v[n - 1] == ';'
        invariant
            n <= v@.len(),
            trim_end_semis(v@.take(n as int)) == trim_end_semis(v@),
        decreases n,
    {
        assert(v@.take(n as int).drop_last() =~= v@.take(n - 1));
        n -= 1;
    }
    assert(v@.take(v@.len() as int) =~= v@);
    slice(v, 0, n)
}

/// `java_import_text` on characters.
fn java_import_text_exec(text: &Vec<char>) -> (r: Option<(Vec<char>, bool)>)
    ensures
        match r {
            Some((p, st)) => java_import_text(text@) == Some((p@, st)),
            None => java_import_text(text@) is None,
        },
{
    let b = trim(&trim_end_semis_exec(&trim(text)));
    let kw = chars_of("import");
    match crate::text::strip_prefix(&b, &kw) {
        Some(rest) => {
            let c = trim(&rest);
            match crate::text::strip_prefix(&c, &chars_of("static")) {
                Some(r2) => Some((trim(&r2), true)),
                None => Some((c, false)),
            }
        },
        None => None,
    }
}

/// Push the import of top-level node `n`.
fn push_java_import(t: &SyntaxTree, n: usize, out: &mut Vec<RawImport>)
    requires
        n < t.size(),
    ensures
        imports_view(final(out)@) == imports_view(old(out)@) + java_decl_import(t, n as int),
{
    let ghost before = imports_view(out@);
    if t.is_kind(n, "import_declaration") {
        match java_import_text_exec(&chars_of(t.text(n).as_str())) {
            Some((p, st)) => {
                if p.len() > 0 {
                    let mut symbols: Vec<String> = Vec::new();
                    if st {
                        symbols.push(string_of(&chars_of("static")));
                    }
                    assert(strings_view(symbols@) =~= if st {
                        seq!["static"@]
                    } else {
                        Seq::<Seq<char>>::empty()
                    });
                    out.push(RawImport { path: string_of(&p), symbols, is_type_only: false, kind: ImportKind::Regular });
                }
            },
            None => {},
        }
    }
    assert(imports_view(out@) =~= before + java_decl_import(t, n as int));
}

// ---------------------------------------------------------------------------
// Declarations
// ---------------------------------------------------------------------------

/// Whether `n` has a `modifiers` child holding a modifier of kind `m`.
pub open spec fn has_java_modifier(t: &SyntaxTree, n: int, m: Seq<char>) -> bool {
    exists|j: int, i: int|
        0 <= j < t.children_of(n).len() && t.kind_of(t.children_of(n)[j] as int) == "modifiers"@
            && 0 <= i < t.children_of(t.children_of(n)[j] as int).len()
            && t.kind_of(#[trigger] t.children_of(#[trigger] t.children_of(n)[j] as int)[i] as int) == m
}

/// The name of a type declaration: its `name` field, else its first
/// identifier child (the text, empty where it is not valid UTF-8).
pub open spec fn decl_name(t: &SyntaxTree, n: int) -> Option<Seq<char>> {
    match t.field_child(n, "name"@) {
        Some(nn) => Some(t.text_at(nn)),
        None => match first_child_of_kind(t, n, "identifier"@) {
            Some(i) => Some(t.text_at(i as int)),
            None => None,
        },
    }
}

/// The visibility one modifier gives.
pub open spec fn java_mod_vis_f(t: &SyntaxTree) -> spec_fn(usize) -> Option<Visibility> {
    |m: usize|
        if t.kind_of(m as int) == "public"@ {
            Some(Visibility::Public)
        } else if t.kind_of(m as int) == "private"@ || t.kind_of(m as int) == "protected"@ {
            Some(Visibility::Private)
        } else {
            None
        }
}

/// The visibility a `modifiers` child gives.
pub open spec fn java_mods_vis_f(t: &SyntaxTree) -> spec_fn(usize) -> Option<Visibility> {
    |c: usize|
        if t.kind_of(c as int) == "modifiers"@ {
            first_some(t.children_of(c as int), java_mod_vis_f(t))
        } else {
            None
        }
}

/// The visibility of a declaration: that of its first access modifier,
/// package-private (internal) without one.
pub open spec fn java_vis(t: &SyntaxTree, n: int) -> Visibility {
    match first_some(t.children_of(n), java_mods_vis_f(t)) {
        Some(v) => v,
        None => Visibility::Internal,
    }
}

/// Whether `kind` is a type declaration that can be exported.
pub open spec fn is_java_type_decl(k: Seq<char>) -> bool {
    k == "class_declaration"@ || k == "interface_declaration"@ || k == "enum_declaration"@ || k
        == "record_declaration"@ || k == "annotation_type_declaration"@
}

/// The export of child `c` of `n`, searching nested programs.
pub open spec fn java_export_child(t: &SyntaxTree, n: int, c: int) -> Seq<ExportView>
    decreases t.size() - n, 0int,
{
    if is_java_type_decl(t.kind_of(c)) {
        if has_java_modifier(t, c, "public"@) {
            match decl_name(t, c) {
                Some(name) => seq![ExportView { name, is_re_export: false, source: None }],
                None => Seq::empty(),
            }
        } else {
            Seq::empty()
        }
    } else if t.kind_of(c) == "program"@ {
        if n < c < t.size() {
            java_exports_of(t, c, t.children_of(c).len() as int)
        } else {
            Seq::empty()
        }
    } else {
        Seq::empty()
    }
}

/// The exports of the first `k` children of `n`.
pub open spec fn java_exports_of(t: &SyntaxTree, n: int, k: int) -> Seq<ExportView>
    decreases t.size() - n, k + 1,
{
    let ch = t.children_of(n);
    if k <= 0 || k > ch.len() {
        Seq::empty()
    } else {
        java_exports_of(t, n, k - 1) + java_export_child(t, n, ch[k - 1] as int)
    }
}

/// The exports of a Java file: its public type declarations.
pub open spec fn java_exports_spec(t: &SyntaxTree) -> Seq<ExportView> {
    java_exports_of(t, 0, t.children_of(0).len() as int)
}

/// A symbol of declaration `c`.
pub open spec fn java_symbol(t: &SyntaxTree, name: Seq<char>, kind: SymbolKind, vis_node: int, c: int, parent: Option<Seq<char>>) -> SymbolView {
    SymbolView { name, kind, visibility: java_vis(t, vis_node), span: span_of(t, c), signature: line_sig(t, c), parent }
}

/// The symbol of a type declaration, when it has a name.
pub open spec fn java_type_symbol(t: &SyntaxTree, c: int, kind: SymbolKind, parent: Option<Seq<char>>) -> Seq<SymbolView> {
    match decl_name(t, c) {
        Some(name) => seq![java_symbol(t, name, kind, c, c, parent)],
        None => Seq::empty(),
    }
}

/// The constant one variable declarator of field `f` declares.
pub open spec fn java_field_name(t: &SyntaxTree, f: int, d: int, parent: Option<Seq<char>>) -> Seq<SymbolView> {
    if t.kind_of(d) == "variable_declarator"@ {
        match t.field_child(d, "name"@) {
            Some(nn) => match t.text_opt_at(nn) {
                Some(name) => seq![java_symbol(t, name, SymbolKind::Const, f, f, parent)],
                None => Seq::empty(),
            },
            None => Seq::empty(),
        }
    } else {
        Seq::empty()
    }
}

/// `java_field_name` as a function of the declarator.
pub open spec fn java_field_name_f(t: &SyntaxTree, f: int, parent: Option<Seq<char>>) -> spec_fn(usize) -> Seq<SymbolView> {
    |d: usize| java_field_name(t, f, d as int, parent)
}

/// The symbols of the body of type declaration `c`, with its name as their parent.
pub open spec fn java_body(t: &SyntaxTree, n: int, c: int) -> Seq<SymbolView>
    decreases t.size() - n, 0int,
{
    match t.field_child(c, "body"@) {
        Some(b) => if n < b < t.size() {
            java_symbols_of(t, b, t.children_of(b).len() as int, decl_name(t, c))
        } else {
            Seq::empty()
        },
        None => Seq::empty(),
    }
}

/// The symbols of a method declaration.
pub open spec fn java_method(t: &SyntaxTree, c: int, parent: Option<Seq<char>>) -> Seq<SymbolView> {
    match t.field_child(c, "name"@) {
        Some(nn) => match t.text_opt_at(nn) {
            Some(name) => seq![java_symbol(t, name, SymbolKind::Method, c, c, parent)],
            None => Seq::empty(),
        },
        None => Seq::empty(),
    }
}

/// The symbols child `c` of `n` declares: classes and interfaces with their
/// members, methods, `static final` fields as constants, enums, and the
/// declarations of nested programs.
pub open spec fn java_child_symbols(t: &SyntaxTree, n: int, c: int, parent: Option<Seq<char>>) -> Seq<SymbolView>
    decreases t.size() - n, 1int,
{
    let k = t.kind_of(c);
    if k == "class_declaration"@ {
        java_type_symbol(t, c, SymbolKind::Class, parent) + java_body(t, n, c)
    } else if k == "interface_declaration"@ {
        java_type_symbol(t, c, SymbolKind::Interface, parent) + java_body(t, n, c)
    } else if k == "method_declaration"@ {
        java_method(t, c, parent)
    } else if k == "field_declaration"@ {
        if has_java_modifier(t, c, "static"@) && has_java_modifier(t, c, "final"@) {
            flat_map(t.children_of(c), java_field_name_f(t, c, parent))
        } else {
            Seq::empty()
        }
    } else if k == "enum_declaration"@ {
        java_type_symbol(t, c, SymbolKind::Enum, parent)
    } else if k == "program"@ {
        if n < c < t.size() {
            java_symbols_of(t, c, t.children_of(c).len() as int, parent)
        } else {
            Seq::empty()
        }
    } else {
        Seq::empty()
    }
}

/// The symbols the first `k` children of `n` declare.
pub open spec fn java_symbols_of(t: &SyntaxTree, n: int, k: int, parent: Option<Seq<char>>) -> Seq<SymbolView>
    decreases t.size() - n, k + 2,
{
    let ch = t.children_of(n);
    if k <= 0 || k > ch.len() {
        Seq::empty()
    } else {
        java_symbols_of(t, n, k - 1, parent) + java_child_symbols(t, n, ch[k - 1] as int, parent)
    }
}

/// The symbols a Java file declares.
pub open spec fn java_symbols_spec(t: &SyntaxTree) -> Seq<SymbolView> {
    java_symbols_of(t, 0, t.children_of(0).len() as int, None)
}

/// Whether `n` has a modifier of kind `m`.
fn has_java_modifier_exec(t: &SyntaxTree, n: usize, m: &str) -> (r: bool)
    requires
        n < t.size(),
    ensures
        r == has_java_modifier(t, n as int, m@),
{
    let ch = t.children(n);
    let mut j: usize = 0;
    while j < ch.len()
        invariant
            0 <= j <= ch@.len(),
            ch@ == t.children_of(n as int),
            forall|q: int| 0 <= q < ch@.len() ==> n < #[trigger] ch@[q] < t.size(),
            forall|jj: int, i: int|
                0 <= jj < j && t.kind_of(ch@[jj] as int) == "modifiers"@ && 0 <= i < t.children_of(ch@[jj] as int).len()
                    ==> t.kind_of(#[trigger] t.children_of(#[trigger] ch@[jj] as int)[i] as int) != m@,
        decreases ch.len() - j,
    {
        let c = ch[j];
        if t.is_kind(c, "modifiers") {
            let mods = t.children(c);
            let mut i: usize = 0;
            while i < mods.len()
                invariant
                    0 <= i <= mods@.len(),
                    mods@ == t.children_of(c as int),
                    j < ch@.len(),
                    ch@[j as int] == c,
                    ch@ == t.children_of(n as int),
                    t.kind_of(c as int) == "modifiers"@,
                    forall|q: int| 0 <= q < mods@.len() ==> c < #[trigger] mods@[q] < t.size(),
                    forall|ii: int| 0 <= ii < i ==> t.kind_of(#[trigger] mods@[ii] as int) != m@,
                decreases mods.len() - i,
            {
                if t.is_kind(mods[i], m) {
                    assert(t.kind_of(t.children_of(ch@[j as int] as int)[i as int] as int) == m@);
                    return true;
                }
                i += 1;
            }
        }
        j += 1;
    }
    false
}

/// The name of type declaration `n`.
fn decl_name_exec(t: &SyntaxTree, n: usize) -> (r: Option<String>)
    requires
        n < t.size(),
    ensures
        opt_str(r) == decl_name(t, n as int),
{
    match t.child_by_field(n, "name") {
        Some(nn) => Some(t.text(nn)),
        None => match t.child_of_kind(n, "identifier") {
            Some(i) => Some(t.text(i)),
            None => None,
        },
    }
}

/// The visibility of declaration `n`.
fn java_vis_exec(t: &SyntaxTree, n: usize) -> (r: Visibility)
    requires
        n < t.size(),
    ensures
        r == java_vis(t, n as int),
{
    let ch = t.children(n);
    let ghost cs = ch@;
    assert(cs.skip(0) =~= cs);
    let mut j: usize = 0;
    while j < ch.len()
        invariant
            0 <= j <= cs.len(),
            cs == ch@,
            cs == t.children_of(n as int),
            forall|q: int| 0 <= q < cs.len() ==> n < #[trigger] cs[q] < t.size(),
            first_some(cs, java_mods_vis_f(t)) == first_some(cs.skip(j as int), java_mods_vis_f(t)),
        decreases ch.len() - j,
    {
        proof {
            lemma_first_some_step(cs, java_mods_vis_f(t), j as int);
        }
        let c = ch[j];
        if t.is_kind(c, "modifiers") {
            let mods = t.children(c);
            let ghost ms = mods@;
            assert(ms.skip(0) =~= ms);
            let mut i: usize = 0;
            while i < mods.len()
                invariant
                    0 <= i <= ms.len(),
                    ms == mods@,
                    ms == t.children_of(c as int),
                    j < cs.len(),
                    cs[j as int] == c,
                    cs == t.children_of(n as int),
                    t.kind_of(c as int) == "modifiers"@,
                    forall|q: int| 0 <= q < ms.len() ==> c < #[trigger] ms[q] < t.size(),
                    first_some(ms, java_mod_vis_f(t)) == first_some(ms.skip(i as int), java_mod_vis_f(t)),
                    first_some(cs, java_mods_vis_f(t)) == if (java_mods_vis_f(t))(cs[j as int]) is Some {
                        (java_mods_vis_f(t))(cs[j as int])
                    } else {
                        first_some(cs.skip(j + 1), java_mods_vis_f(t))
                    },
                decreases mods.len() - i,
            {
                proof {
                    lemma_first_some_step(ms, java_mod_vis_f(t), i as int);
                }
                let m = mods[i];
                if t.is_kind(m, "public") {
                    return Visibility::Public;
                } else if t.is_kind(m, "private") || t.is_kind(m, "protected") {
                    return Visibility::Private;
                }
                i += 1;
            }
        }
        j += 1;
    }
    Visibility::Internal
}

/// Push the exports of the children of `n`.
fn push_java_exports(t: &SyntaxTree, n: usize, out: &mut Vec<RawExport>)
    requires
        n < t.size(),
    ensures
        exports_view(final(out)@) == exports_view(old(out)@) + java_exports_of(t, n as int, t.children_of(n as int).len() as int),
    decreases t.size() - n,
{
    let ghost before = exports_view(out@);
    let ch = t.children(n);
    let mut k: usize = 0;
    while k < ch.len()
        invariant
            0 <= k <= ch@.len(),
            n < t.size(),
            ch@ == t.children_of(n as int),
            forall|j: int| 0 <= j < ch@.len() ==> n < #[trigger] ch@[j] < t.size(),
            exports_view(out@) == before + java_exports_of(t, n as int, k as int),
        decreases ch.len() - k,
    {
        let c = ch[k];
        let ghost mid = exports_view(out@);
        if t.is_kind(c, "class_declaration") || t.is_kind(c, "interface_declaration") || t.is_kind(c, "enum_declaration")
            || t.is_kind(c, "record_declaration") || t.is_kind(c, "annotation_type_declaration") {
            if has_java_modifier_exec(t, c, "public") {
                match decl_name_exec(t, c) {
                    Some(name) => out.push(RawExport { name, is_re_export: false, source: None }),
                    None => {},
                }
            }
        } else if t.is_kind(c, "program") {
            push_java_exports(t, c, out);
        }
        assert(exports_view(out@) =~= mid + java_export_child(t, n as int, c as int));
        assert(exports_view(out@) =~= before + java_exports_of(t, n as int, k + 1));
        k += 1;
    }
}

/// A symbol value.
fn java_symbol_exec(t: &SyntaxTree, name: String, kind: SymbolKind, vis_node: usize, c: usize, parent: &Option<String>) -> (r: SymbolDef)
    requires
        vis_node < t.size(),
        c < t.size(),
    ensures
        r@ == java_symbol(t, name@, kind, vis_node as int, c as int, opt_str(*parent)),
{
    SymbolDef {
        name,
        kind,
        visibility: java_vis_exec(t, vis_node),
        span: span_exec(t, c),
        signature: line_sig_exec(t, c),
        parent: clone_opt_string(parent),
    }
}

/// Push the symbol of type declaration `c`.
fn push_java_type_symbol(t: &SyntaxTree, c: usize, kind: SymbolKind, parent: &Option<String>, out: &mut Vec<SymbolDef>)
    requires
        c < t.size(),
    ensures
        symbols_view(final(out)@) == symbols_view(old(out)@) + java_type_symbol(t, c as int, kind, opt_str(*parent)),
{
    let ghost before = symbols_view(out@);
    match decl_name_exec(t, c) {
        Some(name) => out.push(java_symbol_exec(t, name, kind, c, c, parent)),
        None => {},
    }
    assert(symbols_view(out@) =~= before + java_type_symbol(t, c as int, kind, opt_str(*parent)));
}

/// Push the symbols of the body of type declaration `c`.
fn push_java_body(t: &SyntaxTree, n: usize, c: usize, out: &mut Vec<SymbolDef>)
    requires
        n < c < t.size(),
    ensures
        symbols_view(final(out)@) == symbols_view(old(out)@) + java_body(t, n as int, c as int),
    decreases t.size() - n, 0int,
{
    let ghost before = symbols_view(out@);
    match t.child_by_field(c, "body") {
        Some(b) => {
            let name = decl_name_exec(t, c);
            push_java_symbols(t, b, &name, out);
        },
        None => {
            assert(symbols_view(out@) =~= before + java_body(t, n as int, c as int));
        },
    }
}

/// Push the constant declarator `d` of field `c` declares.
fn push_java_field_name(t: &SyntaxTree, c: usize, d: usize, parent: &Option<String>, out: &mut Vec<SymbolDef>)
    requires
        c < t.size(),
        d < t.size(),
    ensures
        symbols_view(final(out)@) == symbols_view(old(out)@) + (java_field_name_f(t, c as int, opt_str(*parent)))(d),
{
    let ghost mid = symbols_view(out@);
    if t.is_kind(d, "variable_declarator") {
        match t.child_by_field(d, "name") {
            Some(nn) => match t.text_opt(nn) {
                Some(v) => out.push(java_symbol_exec(t, string_of(&v), SymbolKind::Const, c, c, parent)),
                None => {},
            },
            None => {},
        }
    }
    assert(symbols_view(out@) =~= mid + java_field_name(t, c as int, d as int, opt_str(*parent)));
}

/// Push the constants field declaration `c` declares.
#[verifier::spinoff_prover]
#[verifier::rlimit(30)]
fn push_java_fields(t: &SyntaxTree, c: usize, parent: &Option<String>, out: &mut Vec<SymbolDef>)
    requires
        c < t.size(),
    ensures
        symbols_view(final(out)@) == symbols_view(old(out)@) + flat_map(t.children_of(c as int), java_field_name_f(t, c as int, opt_str(*parent))),
{
    let ghost before = symbols_view(out@);
    let ghost p = opt_str(*parent);
    let ch = t.children(c);
    let mut k: usize = 0;
    while k < ch.len()
        invariant
            0 <= k <= ch@.len(),
            ch@ == t.children_of(c as int),
            p == opt_str(*parent),
            forall|j: int| 0 <= j < ch@.len() ==> c < #[trigger] ch@[j] < t.size(),
            symbols_view(out@) == before + flat_map(ch@.take(k as int), java_field_name_f(t, c as int, p)),
        decreases ch.len() - k,
    {
        proof {
            lemma_flat_map_step(ch@, java_field_name_f(t, c as int, p), k as int);
        }
        push_java_field_name(t, c, ch[k], parent, out);
        k += 1;
    }
    assert(ch@.take(ch@.len() as int) =~= ch@);
}

/// Push the symbols child `c` of `n` declares.
#[verifier::spinoff_prover]
fn push_java_child(t: &SyntaxTree, n: usize, c: usize, parent: &Option<String>, out: &mut Vec<SymbolDef>)
    requires
        n < c < t.size(),
    ensures
        symbols_view(final(out)@) == symbols_view(old(out)@) + java_child_symbols(t, n as int, c as int, opt_str(*parent)),
    decreases t.size() - n, 1int,
{
    let ghost before = symbols_view(out@);
    let ghost p = opt_str(*parent);
    if t.is_kind(c, "class_declaration") {
        push_java_type_symbol(t, c, SymbolKind::Class, parent, out);
        push_java_body(t, n, c, out);
    } else if t.is_kind(c, "interface_declaration") {
        push_java_type_symbol(t, c, SymbolKind::Interface, parent, out);
        push_java_body(t, n, c, out);
    } else if t.is_kind(c, "method_declaration") {
        match t.child_by_field(c, "name") {
            Some(nn) => match t.text_opt(nn) {
                Some(v) => out.push(java_symbol_exec(t, string_of(&v), SymbolKind::Method, c, c, parent)),
                None => {},
            },
            None => {},
        }
        assert(symbols_view(out@) =~= before + java_method(t, c as int, p));
    } else if t.is_kind(c, "field_declaration") {
        if has_java_modifier_exec(t, c, "static") && has_java_modifier_exec(t, c, "final") {
            push_java_fields(t, c, parent, out);
        }
    } else if t.is_kind(c, "enum_declaration") {
        push_java_type_symbol(t, c, SymbolKind::Enum, parent, out);
    } else if t.is_kind(c, "program") {
        push_java_symbols(t, c, parent, out);
    }
    assert(symbols_view(out@) =~= before + java_child_symbols(t, n as int, c as int, p));
}

/// Push the symbols the children of `n` declare.
fn push_java_symbols(t: &SyntaxTree, n: usize, parent: &Option<String>, out: &mut Vec<SymbolDef>)
    requires
        n < t.size(),
    ensures
        symbols_view(final(out)@) == symbols_view(old(out)@) + java_symbols_of(
            t,
            n as int,
            t.children_of(n as int).len() as int,
            opt_str(*parent),
        ),
    decreases t.size() - n, 2int,
{
    let ghost before = symbols_view(out@);
    let ghost p = opt_str(*parent);
    let ch = t.children(n);
    let mut k: usize = 0;
    while k < ch.len()
        invariant
            0 <= k <= ch@.len(),
            n < t.size(),
            ch@ == t.children_of(n as int),
            p == opt_str(*parent),
            forall|j: int| 0 <= j < ch@.len() ==> n < #[trigger] ch@[j] < t.size(),
            symbols_view(out@) == before + java_symbols_of(t, n as int, k as int, p),
        decreases ch.len() - k,
    {
        push_java_child(t, n, ch[k], parent, out);
        assert(symbols_view(out@) =~= before + java_symbols_of(t, n as int, k + 1, p));
        k += 1;
    }
}

/// Parser of Java files.
#[derive(Debug)]
pub struct JavaParser;

impl JavaParser {
    /// The parser.
    pub fn new() -> JavaParser {
        JavaParser
    }

    /// The language name.
    pub fn language(&self) -> (r: &'static str)
        ensures
            r@ == "java"@,
    {
        "java"
    }

    /// The imports of a Java file.
    pub fn extract_imports(&self, t: &SyntaxTree) -> (r: Vec<RawImport>)
        ensures
            imports_view(r@) == java_imports_spec(t),
    {
        let mut out: Vec<RawImport> = Vec::new();
        let _ = t.len();
        let ch = t.children(0);
        let mut k: usize = 0;
        while k < ch.len()
            invariant
                0 <= k <= ch@.len(),
                ch@ == t.children_of(0),
                forall|j: int| 0 <= j < ch@.len() ==> 0 < #[trigger] ch@[j] < t.size(),
                imports_view(out@) == flat_map(ch@.take(k as int), java_decl_import_f(t)),
            decreases ch.len() - k,
        {
            proof {
                lemma_flat_map_step(ch@, java_decl_import_f(t), k as int);
            }
            push_java_import(t, ch[k], &mut out);
            k += 1;
        }
        assert(ch@.take(ch@.len() as int) =~= ch@);
        out
    }

    /// The exports of a Java file.
    pub fn extract_exports(&self, t: &SyntaxTree) -> (r: Vec<RawExport>)
        ensures
            exports_view(r@) == java_exports_spec(t),
    {
        let mut out: Vec<RawExport> = Vec::new();
        let _ = t.len();
        push_java_exports(t, 0, &mut out);
        assert(exports_view(out@) =~= java_exports_spec(t));
        out
    }

    /// The symbols a Java file declares.
    pub fn extract_symbols(&self, t: &SyntaxTree) -> (r: Vec<SymbolDef>)
        ensures
            symbols_view(r@) == java_symbols_spec(t),
    {
        let mut out: Vec<SymbolDef> = Vec::new();
        let _ = t.len();
        push_java_symbols(t, 0, &None, &mut out);
        assert(symbols_view(out@) =~= java_symbols_spec(t));
        out
    }
}

} // verus!
