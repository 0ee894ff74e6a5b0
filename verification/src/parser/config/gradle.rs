//! Gradle build files.
use vstd::prelude::*;
use crate::diagnostic::{DiagnosticCollector, Warning, WarningCode};
use crate::model::CanonicalPath;
use crate::text::{chars_of, eq, lines, lines_spec, replace_char, replace_char_spec, starts_with, string_of, trim, trim_spec, views};

verus! {

/// Parsed Gradle build configuration.
#[derive(Clone, Debug)]
pub struct GradleConfig {
    pub config_dir: String,
    pub group: Option<String>,
    pub version: Option<String>,
    /// Source directories.
    pub source_dirs: Vec<String>,
    /// Test source directories.
    pub test_source_dirs: Vec<String>,
    pub dependencies: Vec<GradleDep>,
    pub subprojects: Vec<GradleSubproject>,
    pub is_android: bool,
}

/// A dependency of a Gradle build file.
#[derive(Clone, Debug)]
pub struct GradleDep {
    pub group: String,
    pub artifact: String,
    pub version: Option<String>,
    pub scope: GradleDepScope,
}

/// Gradle dependency configuration.
#[derive(Clone, Debug, PartialEq, Eq)]
pub enum GradleDepScope {
    Implementation,
    Api,
    CompileOnly,
    RuntimeOnly,
    TestImplementation,
    Other(String),
}

/// A subproject declared in a settings file.
#[derive(Clone, Debug)]
pub struct GradleSubproject {
    pub name: String,
    pub path: String,
}

/// The scope a configuration name denotes.
pub open spec fn scope_spec(s: Seq<char>) -> GradleDepScope {
    if s == "implementation"@ {
        GradleDepScope::Implementation
    } else if s == "api"@ {
        GradleDepScope::Api
    } else if s == "compileOnly"@ {
        GradleDepScope::CompileOnly
    } else if s == "runtimeOnly"@ {
        GradleDepScope::RuntimeOnly
    } else if s == "testImplementation"@ {
        GradleDepScope::TestImplementation
    } else {
        GradleDepScope::Other(arbitrary())
    }
}

/// The scope a configuration name denotes, as plain values: the variant,
/// and for other names the name itself.
pub open spec fn scope_matches(r: GradleDepScope, s: Seq<char>) -> bool {
    match scope_spec(s) {
        GradleDepScope::Other(_) => r matches GradleDepScope::Other(n) && n@ == s,
        k => r == k,
    }
}

/// The scope a configuration name denotes.
pub fn parse_scope(s: &str) -> (r: GradleDepScope)
    ensures
        scope_matches(r, s@),
{
    let v = chars_of(s);
    if eq(&v, &chars_of("implementation")) {
        GradleDepScope::Implementation
    } else if eq(&v, &chars_of("api")) {
        GradleDepScope::Api
    } else if eq(&v, &chars_of("compileOnly")) {
        GradleDepScope::CompileOnly
    } else if eq(&v, &chars_of("runtimeOnly")) {
        GradleDepScope::RuntimeOnly
    } else if eq(&v, &chars_of("testImplementation")) {
        GradleDepScope::TestImplementation
    } else {
        GradleDepScope::Other(string_of(&v))
    }
}


// ---------------------------------------------------------------------------
// Patterns
// ---------------------------------------------------------------------------

/// Groovy dependency: `implementation 'group:artifact:version'`.
pub const GROOVY_DEP: &'static str = r#"(implementation|api|compileOnly|runtimeOnly|testImplementation|compile)\s+['"]([^:'"]+):([^:'"]+)(?::([^'"]+))?['"]"#;

/// Kotlin DSL dependency: `implementation("group:artifact:version")`.
pub const KOTLIN_DEP: &'static str = r#"(implementation|api|compileOnly|runtimeOnly|testImplementation)\s*\(\s*"([^:]+):([^:]+)(?::([^"]+))?"\s*\)"#;

/// Top-level `group = '...'`.
pub const GROUP_RE: &'static str = r#"group\s*=?\s*['"]([^'"]+)['"]"#;

/// Top-level `version = '...'`.
pub const VERSION_RE: &'static str = r#"version\s*=?\s*['"]([^'"]+)['"]"#;

/// Groovy Android plugin.
pub const ANDROID_GROOVY: &'static str = r#"apply\s+plugin:\s*['"]com\.android\.(application|library)['"]"#;

/// Kotlin DSL Android plugin.
pub const ANDROID_KOTLIN: &'static str = r#"id\s*[\("']com\.android\.(application|library)['"\)]"#;

/// Groovy `include ':module'`.
pub const INCLUDE_GROOVY: &'static str = r#"include\s+['"][:.]?([^'"]+)['"]"#;

/// Kotlin DSL `include(":module")`.
pub const INCLUDE_KOTLIN: &'static str = r#"include\s*\(\s*"[:]?([^"]+)"\s*\)"#;

/// What `regex::Regex::new(pattern)` and then `captures(text)` give: no
/// match, or the text of each capture group (group 0 the whole match),
/// nothing for a group that took no part.
pub uninterp spec fn regex_captures(pattern: Seq<char>, text: Seq<char>) -> Option<Seq<Option<Seq<char>>>>;

/// The groups of a match, as plain values.
pub open spec fn caps_view(r: Option<Vec<Option<String>>>) -> Option<Seq<Option<Seq<char>>>> {
    match r {
        Some(v) => Some(v@.map_values(|o: Option<String>| match o {
            Some(s) => Some(s@),
            None => None,
        })),
        None => None,
    }
}

/// `regex::Regex::new(pattern)`, then `Regex::captures(text)` on the regex:
/// the groups of the leftmost-first match, as the name `regex_captures`
/// stands for them; nothing when there is no match or the pattern does not
/// compile.
#[verifier::external_body]
fn captures(pattern: &str, text: &str) -> (r: Option<Vec<Option<String>>>)
    ensures
        caps_view(r) == regex_captures(pattern@, text@),
{
    let re = match regex::Regex::new(pattern) {
        Ok(re) => re,
        Err(_) => return None,
    };
    let caps = re.captures(text)?;
    let mut out = Vec::new();
    for m in caps.iter() {
        out.push(m.map(|m| m.as_str().to_string()));
    }
    Some(out)
}

// ---------------------------------------------------------------------------
// Build files
// ---------------------------------------------------------------------------

/// A dependency as plain values: group, artifact, version, configuration name.
pub type DepView = (Seq<char>, Seq<char>, Option<Seq<char>>, Seq<char>);

/// The dependency a match of a dependency pattern gives, when its groups
/// for configuration, group and artifact took part.
pub open spec fn dep_of(c: Seq<Option<Seq<char>>>) -> Option<DepView> {
    if c.len() > 3 && c[1] is Some && c[2] is Some && c[3] is Some {
        Some((c[2]->0, c[3]->0, if c.len() > 4 { c[4] } else { None }, c[1]->0))
    } else {
        None
    }
}

/// Whether a dependency holds the plain values `v`.
pub open spec fn dep_matches(d: GradleDep, v: DepView) -> bool {
    &&& d.group@ == v.0
    &&& d.artifact@ == v.1
    &&& match d.version {
        Some(x) => v.2 == Some(x@),
        None => v.2 is None,
    }
    &&& scope_matches(d.scope, v.3)
}

/// Group 1 of a match, when it took part.
pub open spec fn group1(c: Option<Seq<Option<Seq<char>>>>) -> Option<Seq<char>> {
    match c {
        Some(g) => if g.len() > 1 {
            g[1]
        } else {
            None
        },
        None => None,
    }
}

/// Occurrences of `c` in `s`.
pub open spec fn count_char(s: Seq<char>, c: char) -> int
    decreases s.len(),
{
    if s.len() == 0 {
        0
    } else {
        count_char(s.drop_last(), c) + if s.last() == c {
            1int
        } else {
            0int
        }
    }
}

/// The state of the line scanner.
pub struct GradleScan {
    pub depth: int,
    pub in_dependencies: bool,
    pub found_source_sets: bool,
    pub group: Option<Seq<char>>,
    pub version: Option<Seq<char>>,
    pub deps: Seq<DepView>,
    pub android: bool,
}

/// The scanner before the first line.
pub open spec fn scan_start() -> GradleScan {
    GradleScan { depth: 0, in_dependencies: false, found_source_sets: false, group: None, version: None, deps: Seq::empty(), android: false }
}

/// One trimmed line: braces move the depth; a `dependencies` or
/// `sourceSets` block opening at the top level is noted; back at the top
/// level the dependency block ends; inside it a dependency pattern match
/// adds a dependency (and ends the line); at the top level the first group
/// and version are taken; an Android plugin is noted anywhere.
pub open spec fn gradle_step(s: GradleScan, line: Seq<char>) -> GradleScan {
    let opens = count_char(line, '{');
    let closes = count_char(line, '}');
    let prev = s.depth;
    let block_start = prev == 0 && opens > 0;
    let in1 = if block_start && "dependencies"@.is_prefix_of(line) {
        true
    } else {
        s.in_dependencies
    };
    let found = if block_start && !"dependencies"@.is_prefix_of(line) && "sourceSets"@.is_prefix_of(line) {
        true
    } else {
        s.found_source_sets
    };
    let d1 = prev + opens - closes;
    let back = d1 <= 0 && prev > 0;
    let depth = if back {
        if d1 < 0 {
            0
        } else {
            d1
        }
    } else {
        d1
    };
    let in2 = if back {
        false
    } else {
        in1
    };
    let moved = GradleScan { depth, in_dependencies: in2, found_source_sets: found, ..s };
    let groovy = regex_captures(GROOVY_DEP@, line);
    let kotlin = regex_captures(KOTLIN_DEP@, line);
    if in2 && depth >= 1 && groovy is Some {
        GradleScan {
            deps: match dep_of(groovy->0) {
                Some(d) => s.deps.push(d),
                None => s.deps,
            },
            ..moved
        }
    } else if in2 && depth >= 1 && kotlin is Some {
        GradleScan {
            deps: match dep_of(kotlin->0) {
                Some(d) => s.deps.push(d),
                None => s.deps,
            },
            ..moved
        }
    } else {
        let top = prev == 0 && depth == 0;
        let group = if top && s.group is None {
            group1(regex_captures(GROUP_RE@, line))
        } else {
            s.group
        };
        let version = if top && s.version is None {
            group1(regex_captures(VERSION_RE@, line))
        } else {
            s.version
        };
        let android = s.android || regex_captures(ANDROID_GROOVY@, line) is Some || regex_captures(ANDROID_KOTLIN@, line) is Some;
        GradleScan { group, version, android, ..moved }
    }
}

/// The scanner after the first `n` lines.
pub open spec fn gradle_scan(ls: Seq<Seq<char>>, n: int) -> GradleScan
    decreases n,
{
    if n <= 0 || n > ls.len() {
        scan_start()
    } else {
        gradle_step(gradle_scan(ls, n - 1), trim_spec(ls[n - 1]))
    }
}

/// The scan of a whole build file.
pub open spec fn gradle_file_scan(content: Seq<char>) -> GradleScan {
    gradle_scan(lines_spec(content), lines_spec(content).len() as int)
}

/// Whether the braces of a scanned file are out of balance.
pub open spec fn unbalanced(s: GradleScan) -> bool {
    s.depth < 0 || s.depth > 50
}

/// Whether a parsed build file holds what the scan found.
pub open spec fn gradle_matches(c: GradleConfig, s: GradleScan, config_dir: Seq<char>) -> bool {
    gradle_core_matches(c, s, config_dir) && c.subprojects@.len() == 0
}

/// `c` holds what the scan `s` of a build file found, subprojects aside.
pub open spec fn gradle_core_matches(c: GradleConfig, s: GradleScan, config_dir: Seq<char>) -> bool {
    &&& c.config_dir@ == config_dir
    &&& crate::parser::traits::opt_view(c.group) == s.group
    &&& crate::parser::traits::opt_view(c.version) == s.version
    &&& c.source_dirs@.len() == 1 && c.source_dirs@[0]@ == "src/main/java"@
    &&& c.test_source_dirs@.len() == 1 && c.test_source_dirs@[0]@ == "src/test/java"@
    &&& c.dependencies@.len() == s.deps.len()
    &&& forall|i: int| 0 <= i < s.deps.len() ==> dep_matches(#[trigger] c.dependencies@[i], s.deps[i])
    &&& c.is_android == s.android
}

/// Occurrences of `c` in `v`.
fn count_char_exec(v: &Vec<char>, c: char) -> (r: i64)
    requires
        v@.len() <= i32::MAX,
    ensures
        r == count_char(v@, c),
        0 <= r <= v@.len(),
{
    let mut r: i64 = 0;
    let mut i: usize = 0;
    while i < v.len()
        invariant
            0 <= i <= v@.len(),
            v@.len() <= i32::MAX,
            r == count_char(v@.take(i as int), c),
            0 <= r <= i,
        decreases v.len() - i,
    {
        assert(v@.take(i + 1).drop_last() =~= v@.take(i as int));
        if v[i] == c {
            r += 1;
        }
        i += 1;
    }
    assert(v@.take(v@.len() as int) =~= v@);
    r
}

/// The dependency a match gives.
pub fn dependency_from_captures(c: &Vec<Option<String>>) -> (r: Option<GradleDep>)
    ensures
        match r {
            Some(d) => caps_view(Some(*c)) matches Some(cv) && dep_of(cv) matches Some(v) && dep_matches(d, v),
            None => caps_view(Some(*c)) matches Some(cv) && dep_of(cv) is None,
        },
{
    let ghost cv = caps_view(Some(*c))->0;
    if c.len() > 3 {
        match (&c[1], &c[2], &c[3]) {
            (Some(scope), Some(group), Some(artifact)) => {
                let version = if c.len() > 4 {
                    match &c[4] {
                        Some(v) => Some(string_of(&chars_of(v.as_str()))),
                        None => None,
                    }
                } else {
                    None
                };
                return Some(GradleDep {
                    group: string_of(&chars_of(group.as_str())),
                    artifact: string_of(&chars_of(artifact.as_str())),
                    version,
                    scope: parse_scope(scope.as_str()),
                });
            },
            _ => {},
        }
    }
    None
}

/// Group 1 of a match.
pub fn first_group(c: &Option<Vec<Option<String>>>) -> (r: Option<String>)
    ensures
        crate::parser::traits::opt_view(r) == group1(caps_view(*c)),
{
    match c {
        Some(g) => if g.len() > 1 {
            match &g[1] {
                Some(s) => Some(string_of(&chars_of(s.as_str()))),
                None => None,
            }
        } else {
            None
        },
        None => None,
    }
}

/// Parse a `build.gradle` or `build.gradle.kts` file line by line: `None`,
/// with a warning, when its braces are out of balance.
pub fn parse_build_gradle(content: &str, config_dir: &str, diag: &mut DiagnosticCollector) -> (r: Option<GradleConfig>)
    requires
        content@.len() <= i32::MAX,
    ensures
        match r {
            Some(c) => !unbalanced(gradle_file_scan(content@)) && gradle_matches(c, gradle_file_scan(content@), config_dir@)
                && final(diag).codes() == old(diag).codes(),
            None => unbalanced(gradle_file_scan(content@))
                && final(diag).codes() == old(diag).codes().push(WarningCode::W038GradleParseError),
        },
{
    let cv = chars_of(content);
    let ls = lines(&cv);
    let ghost lv = views(ls@);
    let ghost len = cv@.len() as int;
    proof {
        crate::text::lemma_lines_bounds(cv@);
    }
    let mut depth: i64 = 0;
    let mut in_dependencies = false;
    let mut found_source_sets = false;
    let mut group: Option<String> = None;
    let mut version: Option<String> = None;
    let mut deps: Vec<GradleDep> = Vec::new();
    let mut android = false;
    let mut i: usize = 0;
    while i < ls.len()
        invariant
            0 <= i <= lv.len(),
            lv == views(ls@),
            lv == lines_spec(content@),
            len == content@.len(),
            len <= i32::MAX,
            lv.len() <= len + 1,
            forall|k: int| 0 <= k < lv.len() ==> #[trigger] lv[k].len() <= len,
            -(i * len) <= depth <= i * len,
            ({
                let s = gradle_scan(lv, i as int);
                &&& s.depth == depth
                &&& s.in_dependencies == in_dependencies
                &&& s.found_source_sets == found_source_sets
                &&& s.group == crate::parser::traits::opt_view(group)
                &&& s.version == crate::parser::traits::opt_view(version)
                &&& s.deps.len() == deps@.len()
                &&& forall|k: int| 0 <= k < deps@.len() ==> dep_matches(#[trigger] deps@[k], s.deps[k])
                &&& s.android == android
            }),
        decreases ls.len() - i,
    {
        let ghost s0 = gradle_scan(lv, i as int);
        let line = trim(&ls[i]);
        let ghost lview = line@;
        assert(lview == trim_spec(lv[i as int]));
        assert(trim_spec(lv[i as int]).len() <= lv[i as int].len()) by {
            crate::text::lemma_trim_len(lv[i as int]);
        }
        let ls_str = string_of(&line);
        let opens = count_char_exec(&line, '{');
        let closes = count_char_exec(&line, '}');
        let prev = depth;
        if prev == 0 && opens > 0 {
            if starts_with(&line, &chars_of("dependencies")) {
                in_dependencies = true;
            } else if starts_with(&line, &chars_of("sourceSets")) {
                found_source_sets = true;
            }
        }
        proof {
            assert(opens <= len && closes <= len);
            assert(i * len + len <= (i + 1) * len) by (nonlinear_arith);
            assert(i < lv.len());
            assert((i + 1) * len <= (len + 1) * len) by (nonlinear_arith)
                requires
                    i + 1 <= len + 1,
                    len >= 0,
            ;
            assert((len + 1) * len <= 0x8000_0000 * 0x7fff_ffff) by (nonlinear_arith)
                requires
                    0 <= len <= 0x7fff_ffff,
            ;
        }
        depth = depth + opens - closes;
        if depth <= 0 && prev > 0 {
            in_dependencies = false;
            if depth < 0 {
                depth = 0;
            }
        }
        let groovy = if in_dependencies && depth >= 1 {
            captures(GROOVY_DEP, ls_str.as_str())
        } else {
            None
        };
        let mut done = false;
        match &groovy {
            Some(c) => {
                match dependency_from_captures(c) {
                    Some(d) => deps.push(d),
                    None => {},
                }
                done = true;
            },
            None => {},
        }
        if !done && in_dependencies && depth >= 1 {
            let kotlin = captures(KOTLIN_DEP, ls_str.as_str());
            match &kotlin {
                Some(c) => {
                    match dependency_from_captures(c) {
                        Some(d) => deps.push(d),
                        None => {},
                    }
                    done = true;
                },
                None => {},
            }
        }
        if !done {
            if prev == 0 && depth == 0 {
                if group.is_none() {
                    group = first_group(&captures(GROUP_RE, ls_str.as_str()));
                }
                if version.is_none() {
                    version = first_group(&captures(VERSION_RE, ls_str.as_str()));
                }
            }
            if !android {
                android = captures(ANDROID_GROOVY, ls_str.as_str()).is_some() || captures(ANDROID_KOTLIN, ls_str.as_str()).is_some();
            }
        }
        proof {
            let s1 = gradle_step(s0, lview);
            assert(gradle_scan(lv, i + 1) == s1);
        }
        i += 1;
    }
    if depth < 0 || depth > 50 {
        diag.warn(Warning {
            code: WarningCode::W038GradleParseError,
            path: CanonicalPath::new(config_dir),
            message: string_of(&chars_of("failed to parse build.gradle: unbalanced braces")),
            detail: None,
        });
        return None;
    }
    let mut source_dirs: Vec<String> = Vec::new();
    source_dirs.push(string_of(&chars_of("src/main/java")));
    let mut test_source_dirs: Vec<String> = Vec::new();
    test_source_dirs.push(string_of(&chars_of("src/test/java")));
    Some(GradleConfig {
        config_dir: string_of(&chars_of(config_dir)),
        group,
        version,
        source_dirs,
        test_source_dirs,
        dependencies: deps,
        subprojects: Vec::new(),
        is_android: android,
    })
}


// ---------------------------------------------------------------------------
// Settings files
// ---------------------------------------------------------------------------

/// The subproject an included project name gives: the name without
/// leading colons, and its path with colons as slashes.
pub open spec fn subproject_of(raw: Seq<char>) -> (Seq<char>, Seq<char>) {
    let name = crate::text::trim_start_char_spec(raw, ':');
    (name, replace_char_spec(name, ':', '/'))
}

/// The subprojects one trimmed line of a settings file includes.
pub open spec fn settings_line(line: Seq<char>) -> Seq<(Seq<char>, Seq<char>)> {
    let g = regex_captures(INCLUDE_GROOVY@, line);
    let k = regex_captures(INCLUDE_KOTLIN@, line);
    if g is Some {
        match group1(g) {
            Some(raw) => seq![subproject_of(raw)],
            None => Seq::empty(),
        }
    } else if k is Some {
        match group1(k) {
            Some(raw) => seq![subproject_of(raw)],
            None => Seq::empty(),
        }
    } else {
        Seq::empty()
    }
}

/// `settings_line` of the trimmed line, as a function.
pub open spec fn settings_line_f() -> spec_fn(Seq<char>) -> Seq<(Seq<char>, Seq<char>)> {
    |l: Seq<char>| settings_line(trim_spec(l))
}

/// The subprojects a settings file includes, line by line.
pub open spec fn settings_spec(content: Seq<char>) -> Seq<(Seq<char>, Seq<char>)> {
    crate::syntax::flat_map(lines_spec(content), settings_line_f())
}

/// Parse a `settings.gradle` or `settings.gradle.kts` file for the
/// subprojects it includes.
pub fn parse_settings_gradle(content: &str) -> (r: Vec<GradleSubproject>)
    ensures
        r@.map_values(|p: GradleSubproject| (p.name@, p.path@)) == settings_spec(content@),
{
    let ls = lines(&chars_of(content));
    let ghost lv = views(ls@);
    let mut out: Vec<GradleSubproject> = Vec::new();
    let mut i: usize = 0;
    while i < ls.len()
        invariant
            0 <= i <= lv.len(),
            lv == views(ls@),
            lv == lines_spec(content@),
            out@.map_values(|p: GradleSubproject| (p.name@, p.path@)) == crate::syntax::flat_map(lv.take(i as int), settings_line_f()),
        decreases ls.len() - i,
    {
        proof {
            crate::syntax::lemma_flat_map_step(lv, settings_line_f(), i as int);
        }
        let ghost before = out@.map_values(|p: GradleSubproject| (p.name@, p.path@));
        let line = string_of(&trim(&ls[i]));
        let g = captures(INCLUDE_GROOVY, line.as_str());
        let raw: Option<String> = if g.is_some() {
            first_group(&g)
        } else {
            first_group(&captures(INCLUDE_KOTLIN, line.as_str()))
        };
        match raw {
            Some(x) => {
                let name = crate::text::trim_start_char(&chars_of(x.as_str()), ':');
                let path = replace_char(&name, ':', '/');
                out.push(GradleSubproject { name: string_of(&name), path: string_of(&path) });
            },
            None => {},
        }
        assert(out@.map_values(|p: GradleSubproject| (p.name@, p.path@)) =~= before + settings_line(trim_spec(lv[i as int])));
        i += 1;
    }
    assert(lv.take(lv.len() as int) =~= lv);
    out
}

} // verus!
