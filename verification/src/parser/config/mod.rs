//! Project configuration files.
pub mod bundler;
pub mod csproj;
pub mod discover;
pub mod gomod;
pub mod gradle;
pub mod jsonc;
pub mod maven;
pub mod nextjs;
pub mod pyproject;
pub mod tsconfig;
pub mod turbo;

use vstd::prelude::*;

pub use discover::discover_config;

use crate::model::{
    entry_keys, is_abs_path, parts_key, parts_key_exec, path_join, path_join_spec, path_order_key,
    path_order_key_exec, path_parts, path_parts_exec, TextMap,
};
use crate::text::{chars_of, lemma_lt_irreflexive, lemma_lt_total, lemma_lt_transitive, seq_lt, string_of, views};
use bundler::BundlerConfig;
use csproj::{CsprojConfig, DotnetSolutionInfo};
use gomod::GoModConfig;
use gradle::GradleConfig;
use maven::MavenConfig;
use nextjs::NextRouteInfo;
use pyproject::PyProjectConfig;
use tsconfig::TsConfig;
use turbo::TurboConfig;

verus! {

/// Everything discovered in a project's configuration files.
#[derive(Debug)]
pub struct ProjectConfig {
    /// TypeScript configs, keyed by the directory of their tsconfig.json.
    pub ts_configs: TextMap<TsConfig>,
    /// Go module config.
    pub go_config: Option<GoModConfig>,
    /// Python project config.
    pub py_config: Option<PyProjectConfig>,
    /// C# project configs, keyed by the directory of their .csproj.
    pub csproj_configs: TextMap<CsprojConfig>,
    /// .NET solution info.
    pub dotnet_solution: Option<DotnetSolutionInfo>,
    /// Gradle build configs, keyed by the directory of their build file.
    pub gradle_configs: TextMap<GradleConfig>,
    /// Maven POM configs, keyed by the directory of their pom.xml.
    pub maven_configs: TextMap<MavenConfig>,
    /// Bundler alias configs, keyed by the directory of their config file.
    pub bundler_configs: TextMap<BundlerConfig>,
    /// Turborepo pipeline config.
    pub turbo_config: Option<TurboConfig>,
    /// Next.js routes.
    pub next_routes: Option<NextRouteInfo>,
}

/// Position of the first key in `ks` that names the path whose
/// [`path_order_key`] is `key`.
pub open spec fn first_key_at(ks: Seq<Seq<char>>, key: Seq<char>) -> Option<int>
    decreases ks.len(),
{
    if ks.len() == 0 {
        None
    } else {
        match first_key_at(ks.drop_last(), key) {
            Some(i) => Some(i),
            None => if path_order_key(ks.last()) == key {
                Some(ks.len() - 1)
            } else {
                None
            },
        }
    }
}

/// Position of the key naming the nearest of the directories whose
/// components are the first `n`, `n - 1`, ..., `0` of `parts` (rooted when
/// `abs`), as `Path::parent` walks up.
pub open spec fn nearest_at(ks: Seq<Seq<char>>, abs: bool, parts: Seq<Seq<char>>, n: nat) -> Option<int>
    decreases n,
{
    match first_key_at(ks, parts_key(abs, parts.take(n as int))) {
        Some(i) => Some(i),
        None => if n == 0 {
            None
        } else {
            nearest_at(ks, abs, parts, (n - 1) as nat)
        },
    }
}

/// The key of `m` that names the nearest ancestor directory of `dir`
/// (itself included), paths compared by their components.
pub open spec fn nearest_key<V>(m: &TextMap<V>, dir: Seq<char>) -> Option<int> {
    nearest_at(m.keys(), is_abs_path(dir), path_parts(dir), path_parts(dir).len())
}

/// The value of the nearest ancestor directory of `dir` (itself included) that `m` holds.
pub open spec fn nearest_value<V>(m: &TextMap<V>, dir: Seq<char>) -> Option<V> {
    match nearest_key(m, dir) {
        Some(i) => Some(m.spec_entries()[i].1),
        None => None,
    }
}

proof fn lemma_first_key_at_range(ks: Seq<Seq<char>>, key: Seq<char>)
    ensures
        first_key_at(ks, key) matches Some(i) ==> 0 <= i < ks.len() && path_order_key(ks[i]) == key,
        first_key_at(ks, key) is None ==> forall|j: int| 0 <= j < ks.len() ==> path_order_key(#[trigger] ks[j]) != key,
    decreases ks.len(),
{
    if ks.len() > 0 {
        lemma_first_key_at_range(ks.drop_last(), key);
        assert forall|j: int| 0 <= j < ks.len() - 1 implies ks.drop_last()[j] == #[trigger] ks[j] by {}
    }
}

/// Position of the first entry whose key names the path with order key `key`.
fn first_key_exec<V>(es: &Vec<(String, V)>, key: &Vec<char>) -> (r: Option<usize>)
    ensures
        r matches Some(i) ==> first_key_at(entry_keys(es@), key@) == Some(i as int),
        r is None ==> first_key_at(entry_keys(es@), key@) is None,
{
    let ghost ks = entry_keys(es@);
    let mut i: usize = 0;
    while i < es.len()
        invariant
            i <= es@.len(),
            ks == entry_keys(es@),
            first_key_at(ks.take(i as int), key@) is None,
        decreases es.len() - i,
    {
        let k = path_order_key_exec(&chars_of(es[i].0.as_str()));
        proof {
            assert(ks.take(i + 1).drop_last() =~= ks.take(i as int));
            assert(ks.take(i + 1).last() == es@[i as int].0@);
        }
        if crate::text::eq(&k, key) {
            proof {
                lemma_first_key_at_prefix(ks, key@, i as int + 1);
            }
            return Some(i);
        }
        i += 1;
    }
    assert(ks.take(i as int) =~= ks);
    None
}

proof fn lemma_first_key_at_prefix(ks: Seq<Seq<char>>, key: Seq<char>, n: int)
    requires
        0 <= n <= ks.len(),
        first_key_at(ks.take(n), key) is Some,
    ensures
        first_key_at(ks, key) == first_key_at(ks.take(n), key),
    decreases ks.len() - n,
{
    if n < ks.len() {
        assert(ks.take(n + 1).drop_last() =~= ks.take(n));
        lemma_first_key_at_prefix(ks, key, n + 1);
    } else {
        assert(ks.take(n) =~= ks);
    }
}

/// The config of the nearest ancestor directory of `file_dir`, itself
/// included, directories compared by their components.
pub fn find_nearest<'a, V>(file_dir: &str, configs: &'a TextMap<V>) -> (r: Option<&'a V>)
    ensures
        match r {
            Some(v) => nearest_value(configs, file_dir@) == Some(*v),
            None => nearest_value(configs, file_dir@) is None,
        },
{
    let d = chars_of(file_dir);
    let parts = path_parts_exec(&d);
    let abs = d.len() > 0 && d[0] == '/';
    let es = configs.entries();
    let ghost ps = views(parts@);
    let mut n: usize = parts.len();
    loop
        invariant
            n <= parts@.len(),
            ps == views(parts@),
            ps == path_parts(file_dir@),
            abs == is_abs_path(file_dir@),
            es@ == configs.spec_entries(),
            nearest_key(configs, file_dir@) == nearest_at(configs.keys(), abs, ps, n as nat),
        decreases n,
    {
        let key = parts_key_exec(abs, &parts, n);
        match first_key_exec(es, &key) {
            Some(i) => {
                proof {
                    lemma_first_key_at_range(configs.keys(), key@);
                    assert(entry_keys(es@) == configs.keys());
                    assert(first_key_at(configs.keys(), parts_key(abs, ps.take(n as int))) == Some(i as int));
                    assert(nearest_at(configs.keys(), abs, ps, n as nat) == Some(i as int));
                }
                return Some(&es[i].1);
            },
            None => {},
        }
        if n == 0 {
            return None;
        }
        n = n - 1;
    }
}

/// The nearest .csproj config for a file directory.
pub fn find_nearest_csproj<'a>(file_dir: &str, csproj_configs: &'a TextMap<CsprojConfig>) -> (r: Option<&'a CsprojConfig>)
    ensures
        match r {
            Some(v) => nearest_value(csproj_configs, file_dir@) == Some(*v),
            None => nearest_value(csproj_configs, file_dir@) is None,
        },
{
    find_nearest(file_dir, csproj_configs)
}

/// The nearest tsconfig.json for a file directory.
pub fn find_nearest_tsconfig<'a>(file_dir: &str, ts_configs: &'a TextMap<TsConfig>) -> (r: Option<&'a TsConfig>)
    ensures
        match r {
            Some(v) => nearest_value(ts_configs, file_dir@) == Some(*v),
            None => nearest_value(ts_configs, file_dir@) is None,
        },
{
    find_nearest(file_dir, ts_configs)
}

/// The nearest bundler config for a file directory.
pub fn find_nearest_bundler<'a>(file_dir: &str, bundler_configs: &'a TextMap<BundlerConfig>) -> (r: Option<&'a BundlerConfig>)
    ensures
        match r {
            Some(v) => nearest_value(bundler_configs, file_dir@) == Some(*v),
            None => nearest_value(bundler_configs, file_dir@) is None,
        },
{
    find_nearest(file_dir, bundler_configs)
}

/// The nearest Gradle build config for a file directory.
pub fn find_nearest_gradle<'a>(file_dir: &str, gradle_configs: &'a TextMap<GradleConfig>) -> (r: Option<&'a GradleConfig>)
    ensures
        match r {
            Some(v) => nearest_value(gradle_configs, file_dir@) == Some(*v),
            None => nearest_value(gradle_configs, file_dir@) is None,
        },
{
    find_nearest(file_dir, gradle_configs)
}

/// The nearest Maven POM config for a file directory.
pub fn find_nearest_maven<'a>(file_dir: &str, maven_configs: &'a TextMap<MavenConfig>) -> (r: Option<&'a MavenConfig>)
    ensures
        match r {
            Some(v) => nearest_value(maven_configs, file_dir@) == Some(*v),
            None => nearest_value(maven_configs, file_dir@) is None,
        },
{
    find_nearest(file_dir, maven_configs)
}


/// The strings of a vector, as character sequences.
pub open spec fn string_views(v: Seq<String>) -> Seq<Seq<char>> {
    v.map_values(|s: String| s@)
}

/// `a` comes before `b` when the two are compared as paths, component by
/// component (see [`parts_key`]).
pub open spec fn path_before(a: Seq<char>, b: Seq<char>) -> bool {
    seq_lt(path_order_key(a), path_order_key(b))
}

/// Position in `cs` of the tsconfig whose alias `k` counts: of those that
/// define it, the one whose directory comes last in path order; of two
/// directories that name the same path, the later entry.
pub open spec fn alias_source(cs: Seq<(String, TsConfig)>, k: Seq<char>) -> Option<int>
    decreases cs.len(),
{
    if cs.len() == 0 {
        None
    } else {
        let prev = alias_source(cs.drop_last(), k);
        if cs.last().1.paths.spec_get(k) is Some {
            match prev {
                Some(j) => if path_before(cs.last().0@, cs[j].0@) {
                    Some(j)
                } else {
                    Some(cs.len() - 1)
                },
                None => Some(cs.len() - 1),
            }
        } else {
            prev
        }
    }
}

/// The targets of alias `k` across tsconfigs `cs`: those of
/// [`alias_source`].
pub open spec fn alias_of(cs: Seq<(String, TsConfig)>, k: Seq<char>) -> Option<Seq<Seq<char>>> {
    match alias_source(cs, k) {
        Some(j) => Some(string_views(cs[j].1.paths.spec_get(k)->0@)),
        None => None,
    }
}

/// The alias that counts comes from a tsconfig that defines it, and no
/// tsconfig that defines it has a directory later in path order; when none
/// counts, none defines it.
pub proof fn lemma_alias_source(cs: Seq<(String, TsConfig)>, k: Seq<char>)
    ensures
        alias_source(cs, k) matches Some(j) ==> 0 <= j < cs.len() && cs[j].1.paths.spec_get(k) is Some
            && forall|i: int| 0 <= i < cs.len() && (#[trigger] cs[i]).1.paths.spec_get(k) is Some
                ==> !path_before(cs[j].0@, cs[i].0@),
        alias_source(cs, k) is None ==> forall|i: int| 0 <= i < cs.len() ==> (#[trigger] cs[i]).1.paths.spec_get(k) is None,
    decreases cs.len(),
{
    if cs.len() > 0 {
        let d = cs.drop_last();
        lemma_alias_source(d, k);
        let n = cs.len() - 1;
        assert forall|i: int| 0 <= i < d.len() implies #[trigger] d[i] == cs[i] by {}
        let defines = cs[n].1.paths.spec_get(k) is Some;
        assert(cs.last() == cs[n]);
        lemma_lt_irreflexive(path_order_key(cs[n].0@));
        match alias_source(d, k) {
            Some(j) => {
                assert(d[j] == cs[j]);
                let a = path_order_key(cs[n].0@);
                let b = path_order_key(cs[j].0@);
                lemma_lt_total(a, b);
                if defines && !path_before(cs[n].0@, cs[j].0@) {
                    assert(alias_source(cs, k) == Some(n));
                    assert forall|i: int| 0 <= i < cs.len() && (#[trigger] cs[i]).1.paths.spec_get(k) is Some
                        implies !path_before(cs[n].0@, cs[i].0@) by {
                        if i < n {
                            assert(d[i] == cs[i]);
                            let c = path_order_key(cs[i].0@);
                            assert(!seq_lt(b, c));
                            if seq_lt(a, c) {
                                if a != b {
                                    lemma_lt_transitive(b, a, c);
                                }
                            }
                        }
                    }
                } else if defines {
                    assert(alias_source(cs, k) == Some(j));
                    assert forall|i: int| 0 <= i < cs.len() && (#[trigger] cs[i]).1.paths.spec_get(k) is Some
                        implies !path_before(cs[j].0@, cs[i].0@) by {
                        if i < n {
                            assert(d[i] == cs[i]);
                        }
                    }
                } else {
                    assert(alias_source(cs, k) == Some(j));
                    assert forall|i: int| 0 <= i < cs.len() && (#[trigger] cs[i]).1.paths.spec_get(k) is Some
                        implies !path_before(cs[j].0@, cs[i].0@) by {
                        if i < n {
                            assert(d[i] == cs[i]);
                        }
                    }
                }
            },
            None => {
                if defines {
                    assert(alias_source(cs, k) == Some(n));
                    assert forall|i: int| 0 <= i < cs.len() && (#[trigger] cs[i]).1.paths.spec_get(k) is Some
                        implies !path_before(cs[n].0@, cs[i].0@) by {
                        if i < n {
                            assert(d[i] == cs[i]);
                        }
                    }
                } else {
                    assert(alias_source(cs, k) is None);
                    assert forall|i: int| 0 <= i < cs.len() implies (#[trigger] cs[i]).1.paths.spec_get(k) is None by {
                        if i < n {
                            assert(d[i] == cs[i]);
                        }
                    }
                }
            },
        }
    }
}

/// The targets under `k` in a map of aliases.
pub open spec fn alias_targets(m: &TextMap<Vec<String>>, k: Seq<char>) -> Option<Seq<Seq<char>>> {
    match m.spec_get(k) {
        Some(v) => Some(string_views(v@)),
        None => None,
    }
}

/// The position recorded under `k`.
pub open spec fn source_index(m: &TextMap<usize>, k: Seq<char>) -> Option<int> {
    match m.spec_get(k) {
        Some(u) => Some(u as int),
        None => None,
    }
}

/// The targets of alias `k` in the tsconfig at position `src` of `cs`.
pub open spec fn targets_at(cs: Seq<(String, TsConfig)>, src: Option<int>, k: Seq<char>) -> Option<Seq<Seq<char>>> {
    match src {
        Some(j) => Some(string_views(cs[j].1.paths.spec_get(k)->0@)),
        None => None,
    }
}

/// An equal copy of a vector of strings.
pub fn clone_strings(v: &Vec<String>) -> (r: Vec<String>)
    ensures
        r@ == v@,
{
    let mut r: Vec<String> = Vec::new();
    let mut i: usize = 0;
    while i < v.len()
        invariant
            0 <= i <= v@.len(),
            r@ == v@.take(i as int),
        decreases v.len() - i,
    {
        r.push(v[i].clone());
        assert(r@ =~= v@.take(i + 1));
        i += 1;
    }
    assert(v@.take(v@.len() as int) =~= v@);
    r
}

impl ProjectConfig {
    /// All TypeScript path aliases in one map: where several tsconfigs define
    /// an alias, the one whose directory comes last in path order wins.
    pub fn js_path_aliases(&self) -> (r: TextMap<Vec<String>>)
        ensures
            forall|k: Seq<char>| #[trigger] alias_targets(&r, k) == alias_of(self.ts_configs.spec_entries(), k),
    {
        let mut out: TextMap<Vec<String>> = TextMap::new();
        let mut src: TextMap<usize> = TextMap::new();
        let cs = self.ts_configs.entries();
        let ghost ce = cs@;
        let mut okeys: Vec<Vec<char>> = Vec::new();
        let mut m: usize = 0;
        while m < cs.len()
            invariant
                m <= cs@.len(),
                okeys@.len() == m,
                forall|x: int| 0 <= x < m ==> (#[trigger] okeys@[x])@ == path_order_key(cs@[x].0@),
            decreases cs.len() - m,
        {
            okeys.push(path_order_key_exec(&chars_of(cs[m].0.as_str())));
            m += 1;
        }
        let mut i: usize = 0;
        while i < cs.len()
            invariant
                0 <= i <= cs@.len(),
                ce == cs@,
                ce == self.ts_configs.spec_entries(),
                okeys@.len() == ce.len(),
                forall|x: int| 0 <= x < ce.len() ==> (#[trigger] okeys@[x])@ == path_order_key(ce[x].0@),
                forall|k: Seq<char>| #[trigger] source_index(&src, k) == alias_source(ce.take(i as int), k),
                forall|k: Seq<char>| #[trigger] alias_targets(&out, k) == targets_at(ce, alias_source(ce.take(i as int), k), k),
            decreases cs.len() - i,
        {
            let paths = cs[i].1.paths.entries();
            let ghost pe = paths@;
            let ghost pm = cs@[i as int].1.paths;
            proof {
                assert(ce.take(i + 1).drop_last() =~= ce.take(i as int));
                assert(ce.take(i + 1).last() == ce[i as int]);
                crate::model::lemma_entries_get(pe);
                assert forall|k: Seq<char>| #[trigger] alias_source(ce.take(i as int), k) matches Some(x) ==> 0 <= x < i by {
                    lemma_alias_source(ce.take(i as int), k);
                }
            }
            let mut j: usize = 0;
            while j < paths.len()
                invariant
                    0 <= j <= paths@.len(),
                    0 <= i < ce.len(),
                    ce == cs@,
                    pe == paths@,
                    pe == pm.spec_entries(),
                    crate::model::sorted_distinct(entry_keys(pe)),
                    pm == ce[i as int].1.paths,
                    okeys@.len() == ce.len(),
                    forall|x: int| 0 <= x < ce.len() ==> (#[trigger] okeys@[x])@ == path_order_key(ce[x].0@),
                    forall|x: int| 0 <= x < pe.len() ==> #[trigger] pm.spec_get(pe[x].0@) == Some(pe[x].1),
                    ce.take(i + 1).drop_last() == ce.take(i as int),
                    ce.take(i + 1).last() == ce[i as int],
                    forall|k: Seq<char>| #[trigger] alias_source(ce.take(i as int), k) matches Some(x) ==> 0 <= x < i,
                    forall|k: Seq<char>|
                        #[trigger] source_index(&src, k) == if entry_keys(pe.take(j as int)).contains(k) {
                            alias_source(ce.take(i + 1), k)
                        } else {
                            alias_source(ce.take(i as int), k)
                        },
                    forall|k: Seq<char>|
                        #[trigger] alias_targets(&out, k) == targets_at(ce, if entry_keys(pe.take(j as int)).contains(k) {
                            alias_source(ce.take(i + 1), k)
                        } else {
                            alias_source(ce.take(i as int), k)
                        }, k),
                decreases paths.len() - j,
            {
                let key_chars = chars_of(paths[j].0.as_str());
                let ghost key = pe[j as int].0@;
                let ghost ek = entry_keys(pe.take(j as int));
                proof {
                    assert(entry_keys(pe.take(j + 1)) =~= ek.push(key));
                    if ek.contains(key) {
                        let x = choose|x: int| 0 <= x < ek.len() && ek[x] == key;
                        assert(entry_keys(pe)[x] == key);
                        assert(entry_keys(pe)[j as int] == key);
                        crate::text::lemma_lt_irreflexive(key);
                    }
                    assert(pm.spec_get(key) == Some(pe[j as int].1));
                }
                let prev = src.get(&key_chars);
                let keep = match prev {
                    Some(x) => {
                        let x = *x;
                        proof {
                            assert(source_index(&src, key) == Some(x as int));
                        }
                        match crate::text::compare_text(&okeys[i], &okeys[x]) {
                            crate::text::TextOrder::Less => true,
                            _ => false,
                        }
                    },
                    None => false,
                };
                let ghost old_src = src;
                let ghost old_out = out;
                if !keep {
                    let val = clone_strings(&paths[j].1);
                    out.insert(paths[j].0.clone(), val);
                    src.insert(paths[j].0.clone(), i);
                }
                proof {
                    let cs1 = ce.take(i + 1);
                    assert(cs1.len() == i + 1);
                    assert(cs1.last().1.paths.spec_get(key) is Some);
                    assert(cs1[i as int] == ce[i as int]);
                    assert(source_index(&old_src, key) == alias_source(ce.take(i as int), key));
                    match alias_source(ce.take(i as int), key) {
                        Some(x) => {
                            assert(0 <= x < i);
                            assert(cs1[x] == ce[x]);
                            assert(keep == path_before(ce[i as int].0@, ce[x].0@));
                            if keep {
                                assert(alias_source(cs1, key) == Some(x));
                            } else {
                                assert(alias_source(cs1, key) == Some(i as int));
                            }
                        },
                        None => {
                            assert(!keep);
                            assert(alias_source(cs1, key) == Some(i as int));
                        },
                    }
                    if !keep {
                        assert(source_index(&src, key) == Some(i as int));
                        assert(alias_targets(&out, key) == Some(string_views(pe[j as int].1@)));
                    }
                    assert forall|k: Seq<char>|
                        #[trigger] source_index(&src, k) == if entry_keys(pe.take(j + 1)).contains(k) {
                            alias_source(ce.take(i + 1), k)
                        } else {
                            alias_source(ce.take(i as int), k)
                        } by {
                        assert(source_index(&old_src, k) == if ek.contains(k) {
                            alias_source(ce.take(i + 1), k)
                        } else {
                            alias_source(ce.take(i as int), k)
                        });
                        assert(alias_targets(&old_out, k) == targets_at(ce, if ek.contains(k) {
                            alias_source(ce.take(i + 1), k)
                        } else {
                            alias_source(ce.take(i as int), k)
                        }, k));
                        if k != key {
                            assert(source_index(&src, k) == source_index(&old_src, k));
                            assert(alias_targets(&out, k) == alias_targets(&old_out, k));
                            if ek.push(key).contains(k) {
                                let x = choose|x: int| 0 <= x < ek.push(key).len() && ek.push(key)[x] == k;
                                assert(ek[x] == k);
                            }
                            if ek.contains(k) {
                                let x = choose|x: int| 0 <= x < ek.len() && ek[x] == k;
                                assert(ek.push(key)[x] == k);
                            }
                        } else {
                            assert(ek.push(key)[j as int] == key);
                        }
                    }
                    assert forall|k: Seq<char>|
                        #[trigger] alias_targets(&out, k) == targets_at(ce, if entry_keys(pe.take(j + 1)).contains(k) {
                            alias_source(ce.take(i + 1), k)
                        } else {
                            alias_source(ce.take(i as int), k)
                        }, k) by {
                        assert(alias_targets(&old_out, k) == targets_at(ce, if ek.contains(k) {
                            alias_source(ce.take(i + 1), k)
                        } else {
                            alias_source(ce.take(i as int), k)
                        }, k));
                        if k != key {
                            assert(alias_targets(&out, k) == alias_targets(&old_out, k));
                            if ek.push(key).contains(k) {
                                let x = choose|x: int| 0 <= x < ek.push(key).len() && ek.push(key)[x] == k;
                                assert(ek[x] == k);
                            }
                            if ek.contains(k) {
                                let x = choose|x: int| 0 <= x < ek.len() && ek[x] == k;
                                assert(ek.push(key)[x] == k);
                            }
                        } else {
                            assert(ek.push(key)[j as int] == key);
                            assert(ce.take(i + 1)[i as int] == ce[i as int]);
                            match alias_source(ce.take(i as int), key) {
                                Some(x) => {
                                    assert(ce.take(i + 1)[x] == ce[x]);
                                },
                                None => {},
                            }
                        }
                    }
                }
                j += 1;
            }
            proof {
                assert(pe.take(pe.len() as int) =~= pe);
                assert forall|k: Seq<char>| !entry_keys(pe).contains(k) implies #[trigger] alias_source(ce.take(i + 1), k)
                    == alias_source(ce.take(i as int), k) by {
                    if pm.spec_get(k) is Some {
                        let x = choose|x: int| 0 <= x < pe.len() && pe[x].0@ == k;
                        assert(entry_keys(pe)[x] == k);
                    }
                }
            }
            i += 1;
        }
        assert(ce.take(ce.len() as int) =~= ce);
        proof {
            assert forall|k: Seq<char>| #[trigger] alias_targets(&out, k) == alias_of(self.ts_configs.spec_entries(), k) by {
                assert(alias_targets(&out, k) == targets_at(ce, alias_source(ce, k), k));
            }
        }
        out
    }

    /// The project-relative paths of the configuration files found: each
    /// tsconfig.json, go.mod, pyproject.toml, each .csproj directory (as
    /// `*.csproj`), each build.gradle and pom.xml; in path order (see
    /// [`path_key`]), without repeats.
    pub fn discovered_config_files(&self) -> (r: Vec<String>)
        ensures
            forall|i: int, j: int|
                0 <= i < j < r@.len() ==> seq_lt(path_key(#[trigger] r@[i]@), path_key(#[trigger] r@[j]@)),
            forall|x: Seq<char>| #[trigger] string_views(r@).contains(x) <==> config_file_candidates(self).contains(x),
    {
        let mut cands: Vec<Vec<char>> = Vec::new();
        push_joined(&self.ts_configs, "tsconfig.json", &mut cands);
        if self.go_config.is_some() {
            cands.push(chars_of("go.mod"));
        }
        if self.py_config.is_some() {
            cands.push(chars_of("pyproject.toml"));
        }
        push_joined(&self.csproj_configs, "*.csproj", &mut cands);
        push_joined(&self.gradle_configs, "build.gradle", &mut cands);
        push_joined(&self.maven_configs, "pom.xml", &mut cands);
        assert(views(cands@) =~= config_file_candidates(self));
        sorted_paths(&cands)
    }
}
/// A path's characters with `/` and NUL exchanged: text order on these is
/// the order of paths by components, `/` sorting before every other character.
pub open spec fn path_key(s: Seq<char>) -> Seq<char> {
    s.map_values(|c: char| if c == '/' { '\0' } else if c == '\0' { '/' } else { c })
}

/// Exchanging twice gives the path back.
pub proof fn lemma_path_key_involution(s: Seq<char>)
    ensures
        path_key(path_key(s)) == s,
{
    assert(path_key(path_key(s)) =~= s);
}

/// `path_key`.
pub(crate) fn path_key_exec(v: &Vec<char>) -> (r: Vec<char>)
    ensures
        r@ == path_key(v@),
{
    let mut r: Vec<char> = Vec::new();
    let mut i: usize = 0;
    while i < v.len()
        invariant
            i <= v.len(),
            r@ == path_key(v@.take(i as int)),
        decreases v.len() - i,
    {
        let c = v[i];
        let d = if c == '/' {
            '\0'
        } else if c == '\0' {
            '/'
        } else {
            c
        };
        r.push(d);
        assert(path_key(v@.take(i + 1)) =~= path_key(v@.take(i as int)).push(d));
        i += 1;
    }
    assert(v@.take(v@.len() as int) =~= v@);
    r
}

/// Each key of a map joined with `suffix`.
pub open spec fn joined(keys: Seq<Seq<char>>, suffix: Seq<char>) -> Seq<Seq<char>> {
    keys.map_values(|d: Seq<char>| path_join_spec(d, suffix))
}

/// The configuration file paths a project configuration names, before
/// sorting.
pub open spec fn config_file_candidates(c: &ProjectConfig) -> Seq<Seq<char>> {
    joined(c.ts_configs.keys(), "tsconfig.json"@)
        + (if c.go_config is Some { seq!["go.mod"@] } else { Seq::empty() })
        + (if c.py_config is Some { seq!["pyproject.toml"@] } else { Seq::empty() })
        + joined(c.csproj_configs.keys(), "*.csproj"@)
        + joined(c.gradle_configs.keys(), "build.gradle"@)
        + joined(c.maven_configs.keys(), "pom.xml"@)
}

/// Push each key of `m` joined with `suffix`.
fn push_joined<V>(m: &TextMap<V>, suffix: &str, out: &mut Vec<Vec<char>>)
    ensures
        views(final(out)@) == views(old(out)@) + joined(m.keys(), suffix@),
{
    let ghost before = views(out@);
    let es = m.entries();
    let sfx = chars_of(suffix);
    let mut i: usize = 0;
    while i < es.len()
        invariant
            i <= es@.len(),
            es@ == m.spec_entries(),
            sfx@ == suffix@,
            views(out@) == before + joined(m.keys().take(i as int), suffix@),
        decreases es.len() - i,
    {
        let d = chars_of(es[i].0.as_str());
        let ghost prev = out@;
        let jn = path_join(&d, &sfx);
        out.push(jn);
        assert(views(out@) =~= views(prev).push(jn@));
        assert(m.keys()[i as int] == es@[i as int].0@);
        assert(joined(m.keys().take(i + 1), suffix@) =~= joined(m.keys().take(i as int), suffix@).push(
            path_join_spec(d@, suffix@),
        ));
        assert(views(out@) =~= before + joined(m.keys().take(i + 1), suffix@));
        i += 1;
    }
    assert(m.keys().take(es@.len() as int) =~= m.keys());
}

/// The paths in path order, without repeats.
fn sorted_paths(v: &Vec<Vec<char>>) -> (r: Vec<String>)
    ensures
        forall|i: int, j: int|
            0 <= i < j < r@.len() ==> seq_lt(path_key(#[trigger] r@[i]@), path_key(#[trigger] r@[j]@)),
        forall|x: Seq<char>| #[trigger] string_views(r@).contains(x) <==> views(v@).contains(x),
{
    let mut set: TextMap<()> = TextMap::new();
    let mut i: usize = 0;
    while i < v.len()
        invariant
            i <= v.len(),
            forall|y: Seq<char>| #[trigger] set.keys().contains(y) <==> exists|m: int| 0 <= m < i && path_key(v@[m]@) == y,
        decreases v.len() - i,
    {
        let k = path_key_exec(&v[i]);
        let ghost old_set = set;
        set.insert(string_of(&k), ());
        proof {
            assert forall|y: Seq<char>| #[trigger] set.keys().contains(y) <==> exists|m: int| 0 <= m < i + 1 && path_key(v@[m]@) == y by {
                if set.keys().contains(y) && !old_set.keys().contains(y) {
                    assert(path_key(v@[i as int]@) == y);
                }
                if exists|m: int| 0 <= m < i + 1 && path_key(v@[m]@) == y {
                    let m = choose|m: int| 0 <= m < i + 1 && path_key(v@[m]@) == y;
                    if m < i {
                        assert(old_set.keys().contains(y));
                    }
                }
            }
        }
        i += 1;
    }
    let es = set.entries();
    let ghost ks = set.keys();
    let mut out: Vec<String> = Vec::new();
    let mut j: usize = 0;
    while j < es.len()
        invariant
            j <= es@.len(),
            es@ == set.spec_entries(),
            ks == set.keys(),
            crate::model::sorted_distinct(ks),
            out@.len() == j,
            forall|m: int| 0 <= m < j ==> #[trigger] out@[m]@ == path_key(ks[m]),
        decreases es.len() - j,
    {
        let k = chars_of(es[j].0.as_str());
        assert(ks[j as int] == k@);
        out.push(string_of(&path_key_exec(&k)));
        j += 1;
    }
    proof {
        assert forall|i: int, j: int| 0 <= i < j < out@.len() implies seq_lt(path_key(#[trigger] out@[i]@), path_key(#[trigger] out@[j]@)) by {
            lemma_path_key_involution(ks[i]);
            lemma_path_key_involution(ks[j]);
        }
        assert forall|x: Seq<char>| #[trigger] string_views(out@).contains(x) <==> views(v@).contains(x) by {
            if string_views(out@).contains(x) {
                let m = choose|m: int| 0 <= m < out@.len() && string_views(out@)[m] == x;
                assert(out@[m]@ == x);
                lemma_path_key_involution(ks[m]);
                assert(ks.contains(path_key(x)));
                let q = choose|q: int| 0 <= q < v@.len() && path_key(v@[q]@) == path_key(x);
                lemma_path_key_involution(v@[q]@);
                lemma_path_key_involution(x);
                assert(views(v@)[q] == x);
            }
            if views(v@).contains(x) {
                let q = choose|q: int| 0 <= q < v@.len() && views(v@)[q] == x;
                assert(v@[q]@ == x);
                assert(set.keys().contains(path_key(x)));
                let m = choose|m: int| 0 <= m < ks.len() && ks[m] == path_key(x);
                lemma_path_key_involution(x);
                assert(string_views(out@)[m] == x);
            }
        }
    }
    out
}

} // verus!
