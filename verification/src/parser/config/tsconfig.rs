//! `tsconfig.json` path aliases.
use vstd::prelude::*;
use vstd::string::StringSliceAdditionalSpecFns;

use crate::diagnostic::{DiagnosticCollector, Warning, WarningCode};
use crate::json::{json_get, json_get_opt, json_parsed, json_str_opt, parse_json, JsonValue};
use crate::model::{dir_parent_spec, extension_spec, file_name_spec, is_dotdot_seg, path_join, path_join_spec, CanonicalPath, TextMap};
use crate::parser::config::jsonc::{strip_jsonc_comments, strip_jsonc_spec};
use crate::text::{
    chars_of, concat, ends_with, find_char, find_char_spec, slice, starts_with, string_of, views,
};

verus! {

/// Parsed tsconfig.json configuration.
#[derive(Debug)]
pub struct TsConfig {
    /// Directory containing this tsconfig.json.
    pub config_dir: String,
    /// `compilerOptions.baseUrl`, relative to `config_dir`.
    pub base_url: Option<String>,
    /// `compilerOptions.paths`: alias pattern to target patterns.
    pub paths: TextMap<Vec<String>>,
}

/// What `specifier` captures for `pattern`: with a `*`, the text between the
/// part before it (a prefix of the specifier) and the part after it (a
/// suffix, not overlapping the prefix); without one, nothing, when the two
/// are equal.
pub open spec fn match_wildcard_spec(pattern: Seq<char>, specifier: Seq<char>) -> Option<Seq<char>> {
    match find_char_spec(pattern, '*') {
        Some(p) => {
            let prefix = pattern.take(p);
            let suffix = pattern.skip(p + 1);
            if prefix.is_prefix_of(specifier) && suffix.is_suffix_of(specifier) && p <= specifier.len()
                - suffix.len() {
                Some(specifier.subrange(p, specifier.len() - suffix.len()))
            } else {
                None
            }
        },
        None => if pattern == specifier {
            Some(Seq::empty())
        } else {
            None
        },
    }
}

/// `s` with every `*` replaced by `cap` (`str::replace`).
pub open spec fn replace_star(s: Seq<char>, cap: Seq<char>) -> Seq<char>
    decreases s.len(),
{
    if s.len() == 0 {
        Seq::empty()
    } else {
        replace_star(s.drop_last(), cap) + if s.last() == '*' {
            cap
        } else {
            seq![s.last()]
        }
    }
}

/// Length of the UTF-8 encoding of `s`, as `str::len` reports it.
pub open spec fn byte_len(s: Seq<char>) -> nat {
    (vstd::utf8::encode_utf8(s).len() as usize) as nat
}

/// The entry `i` of `e` is the alias used for `specifier`: it matches, and
/// every matching entry has a shorter pattern or an equally long one that
/// comes later.
pub open spec fn is_chosen_alias(e: Seq<(String, Vec<String>)>, specifier: Seq<char>, i: int) -> bool {
    &&& 0 <= i < e.len()
    &&& match_wildcard_spec(e[i].0@, specifier) is Some
    &&& forall|j: int|
        0 <= j < e.len() && j != i && match_wildcard_spec(e[j].0@, specifier) is Some ==> (byte_len(
            #[trigger] e[j].0@,
        ) < byte_len(e[i].0@) || (byte_len(e[j].0@) == byte_len(e[i].0@) && j > i))
}

/// The base directory targets are taken from.
pub open spec fn base_dir_spec(c: &TsConfig) -> Seq<char> {
    match c.base_url {
        Some(b) => path_join_spec(c.config_dir@, b@),
        None => c.config_dir@,
    }
}

/// The candidates `resolve_path_alias` gives: the targets of the chosen
/// alias with `*` replaced by the capture, under the base directory; else
/// the specifier under the base directory when there is a base URL; else
/// nothing.
pub open spec fn alias_candidates(c: &TsConfig, specifier: Seq<char>) -> Seq<Seq<char>> {
    let e = c.paths.spec_entries();
    let base = base_dir_spec(c);
    if exists|i: int| is_chosen_alias(e, specifier, i) {
        let i = choose|i: int| is_chosen_alias(e, specifier, i);
        let cap = match_wildcard_spec(e[i].0@, specifier)->0;
        views_of_strings(e[i].1@).map_values(|t: Seq<char>| path_join_spec(base, replace_star(t, cap)))
    } else if c.base_url is Some {
        seq![path_join_spec(base, specifier)]
    } else {
        Seq::empty()
    }
}

/// The characters of each string.
pub open spec fn views_of_strings(v: Seq<String>) -> Seq<Seq<char>> {
    v.map_values(|s: String| s@)
}

/// Match a pattern with at most one `*` against a specifier; `Some` holds
/// what the `*` stands for (nothing for an exact match).
pub fn match_wildcard(pattern: &str, specifier: &str) -> (r: Option<String>)
    ensures
        match r {
            Some(s) => match_wildcard_spec(pattern@, specifier@) == Some(s@),
            None => match_wildcard_spec(pattern@, specifier@) is None,
        },
{
    let p = chars_of(pattern);
    let s = chars_of(specifier);
    match find_char(&p, '*') {
        Some(star) => {
            let prefix = slice(&p, 0, star);
            let suffix = slice(&p, star + 1, p.len());
            assert(prefix@ == p@.take(star as int));
            assert(suffix@ == p@.skip(star + 1));
            if starts_with(&s, &prefix) && ends_with(&s, &suffix) && suffix.len() <= s.len() && star <= s.len() - suffix.len() {
                Some(string_of(&slice(&s, star, s.len() - suffix.len())))
            } else {
                proof {
                    if prefix@.is_prefix_of(s@) && suffix@.is_suffix_of(s@) {
                        assert(suffix@.len() <= s@.len());
                    }
                }
                None
            }
        },
        None => {
            if crate::text::eq(&p, &s) {
                Some(String::new())
            } else {
                None
            }
        },
    }
}

/// `replace_star` on characters.
fn replace_star_exec(t: &Vec<char>, cap: &Vec<char>) -> (r: Vec<char>)
    ensures
        r@ == replace_star(t@, cap@),
{
    let mut out: Vec<char> = Vec::new();
    let mut i: usize = 0;
    while i < t.len()
        invariant
            0 <= i <= t@.len(),
            out@ == replace_star(t@.take(i as int), cap@),
        decreases t.len() - i,
    {
        assert(t@.take(i + 1).drop_last() =~= t@.take(i as int));
        if t[i] == '*' {
            crate::text::push_all(&mut out, cap);
        } else {
            out.push(t[i]);
        }
        assert(out@ =~= replace_star(t@.take(i + 1), cap@));
        i += 1;
    }
    assert(t@.take(t@.len() as int) =~= t@);
    out
}

/// Resolve a path alias with the `paths` and `baseUrl` of a tsconfig: the
/// longest matching pattern (the first in key order among equally long
/// ones) gives one candidate per target, `*` replaced by what it matched,
/// under `config_dir`/`baseUrl`; with no match, the specifier under the
/// base URL when one is set; otherwise nothing.
pub fn resolve_path_alias(specifier: &str, config: &TsConfig) -> (r: Vec<String>)
    ensures
        views_of_strings(r@) == alias_candidates(config, specifier@),
{
    let dir = chars_of(config.config_dir.as_str());
    let base = match &config.base_url {
        Some(b) => path_join(&dir, &chars_of(b.as_str())),
        None => dir,
    };
    assert(base@ == base_dir_spec(config));
    let entries = config.paths.entries();
    let ghost e = entries@;
    let mut best: Option<usize> = None;
    let mut best_cap: Vec<char> = Vec::new();
    let mut i: usize = 0;
    while i < entries.len()
        invariant
            0 <= i <= entries@.len(),
            e == entries@,
            e == config.paths.spec_entries(),
            match best {
                Some(b) => {
                    &&& b < i
                    &&& match_wildcard_spec(e[b as int].0@, specifier@) == Some(best_cap@)
                    &&& forall|j: int|
                        0 <= j < i && j != b && match_wildcard_spec(e[j].0@, specifier@) is Some ==> (
                        byte_len(#[trigger] e[j].0@) < byte_len(e[b as int].0@) || (byte_len(e[j].0@) == byte_len(
                            e[b as int].0@,
                        ) && j > b))
                },
                None => forall|j: int| 0 <= j < i ==> match_wildcard_spec(#[trigger] e[j].0@, specifier@) is None,
            },
        decreases entries.len() - i,
    {
        match match_wildcard(entries[i].0.as_str(), specifier) {
            Some(cap) => {
                let si = entries[i].0.as_str();
                let li = si.len();
                assert(li == byte_len(e[i as int].0@)) by {
                    assert(si@ == e[i as int].0@);
                }
                let better = match best {
                    Some(b) => {
                        let sb = entries[b].0.as_str();
                        let lb = sb.len();
                        assert(lb == byte_len(e[b as int].0@)) by {
                            assert(sb@ == e[b as int].0@);
                        }
                        li > lb
                    },
                    None => true,
                };
                if better {
                    best = Some(i);
                    best_cap = chars_of(cap.as_str());
                }
            },
            None => {},
        }
        i += 1;
    }
    let mut out: Vec<String> = Vec::new();
    match best {
        Some(b) => {
            proof {
                assert(is_chosen_alias(e, specifier@, b as int));
                let c = choose|c: int| is_chosen_alias(e, specifier@, c);
                if c != b {
                    assert(is_chosen_alias(e, specifier@, c));
                }
            }
            let targets = &entries[b].1;
            let ghost tv = views_of_strings(targets@);
            let ghost f = |t: Seq<char>| path_join_spec(base@, replace_star(t, best_cap@));
            let mut k: usize = 0;
            while k < targets.len()
                invariant
                    0 <= k <= targets@.len(),
                    tv == views_of_strings(targets@),
                    f == (|t: Seq<char>| path_join_spec(base@, replace_star(t, best_cap@))),
                    views_of_strings(out@) == tv.take(k as int).map_values(f),
                decreases targets.len() - k,
            {
                let t = chars_of(targets[k].as_str());
                let joined = path_join(&base, &replace_star_exec(&t, &best_cap));
                let ghost before = views_of_strings(out@);
                out.push(string_of(&joined));
                assert(views_of_strings(out@) =~= before.push(joined@));
                assert(tv.take(k + 1) =~= tv.take(k as int).push(tv[k as int]));
                assert(views_of_strings(out@) =~= tv.take(k + 1).map_values(f));
                k += 1;
            }
            assert(tv.take(tv.len() as int) =~= tv);
        },
        None => {
            proof {
                if exists|c: int| is_chosen_alias(e, specifier@, c) {
                    let c = choose|c: int| is_chosen_alias(e, specifier@, c);
                    assert(match_wildcard_spec(e[c].0@, specifier@) is None);
                }
            }
            if config.base_url.is_some() {
                out.push(string_of(&path_join(&base, &chars_of(specifier))));
                assert(views_of_strings(out@) =~= alias_candidates(config, specifier@));
            } else {
                assert(views_of_strings(out@) =~= alias_candidates(config, specifier@));
            }
        },
    }
    out
}

// ---------------------------------------------------------------------------
// Reading tsconfig.json
// ---------------------------------------------------------------------------

/// The string elements of a JSON array, in order.
pub open spec fn string_items(items: Seq<JsonValue>) -> Seq<Seq<char>>
    decreases items.len(),
{
    if items.len() == 0 {
        Seq::empty()
    } else {
        string_items(items.drop_last()) + match items.last() {
            JsonValue::Str(s) => seq![s@],
            _ => Seq::empty(),
        }
    }
}

/// The targets a `paths` value gives: the strings of an array; nothing
/// for another value.
pub open spec fn path_targets(v: JsonValue) -> Option<Seq<Seq<char>>> {
    match v {
        JsonValue::Array(items) => Some(string_items(items@)),
        _ => None,
    }
}

/// The members of `compilerOptions.paths`, when it is an object.
pub open spec fn paths_members(co: Option<JsonValue>) -> Seq<(String, JsonValue)> {
    match json_get_opt(co, "paths"@) {
        Some(JsonValue::Object(es)) => es@,
        _ => Seq::empty(),
    }
}

/// The targets of pattern `k`: those of the last member named `k` whose
/// value is an array holding at least one string.
pub open spec fn paths_last(es: Seq<(String, JsonValue)>, k: Seq<char>) -> Option<Seq<Seq<char>>>
    decreases es.len(),
{
    if es.len() == 0 {
        None
    } else {
        let e = es.last();
        if e.0@ == k && path_targets(e.1) is Some && path_targets(e.1)->0.len() > 0 {
            path_targets(e.1)
        } else {
            paths_last(es.drop_last(), k)
        }
    }
}

/// One `W032InvalidPathPattern` per member whose value is not an array.
pub open spec fn paths_codes(es: Seq<(String, JsonValue)>) -> Seq<WarningCode>
    decreases es.len(),
{
    if es.len() == 0 {
        Seq::empty()
    } else {
        paths_codes(es.drop_last()) + if path_targets(es.last().1) is None {
            seq![WarningCode::W032InvalidPathPattern]
        } else {
            Seq::empty()
        }
    }
}

/// The targets stored under `k`.
pub open spec fn targets_at(m: &TextMap<Vec<String>>, k: Seq<char>) -> Option<Seq<Seq<char>>> {
    match m.spec_get(k) {
        Some(v) => Some(views_of_strings(v@)),
        None => None,
    }
}

/// The string elements of an array.
fn string_items_exec(items: &Vec<JsonValue>) -> (r: Vec<String>)
    ensures
        views_of_strings(r@) == string_items(items@),
{
    let mut out: Vec<String> = Vec::new();
    let mut i: usize = 0;
    while i < items.len()
        invariant
            i <= items@.len(),
            views_of_strings(out@) == string_items(items@.take(i as int)),
        decreases items.len() - i,
    {
        let ghost o0 = out@;
        assert(items@.take(i + 1).drop_last() =~= items@.take(i as int));
        match &items[i] {
            JsonValue::Str(s) => {
                let c = string_of(&chars_of(s.as_str()));
                out.push(c);
                assert(views_of_strings(out@) =~= views_of_strings(o0).push(s@));
            },
            _ => {},
        }
        assert(views_of_strings(out@) =~= string_items(items@.take(i + 1)));
        i += 1;
    }
    assert(items@.take(items@.len() as int) =~= items@);
    out
}

/// The path warnings about the tsconfig.json in `dir` carry.
fn tsconfig_path(dir: &str) -> (r: CanonicalPath)
    ensures
        r@ == crate::model::canon_spec(path_join_spec(dir@, "tsconfig.json"@)),
{
    let p = path_join(&chars_of(dir), &chars_of("tsconfig.json"));
    CanonicalPath::new(string_of(&p).as_str())
}

/// Read the members of `compilerOptions.paths`: each pattern whose value is
/// an array with strings maps to them; a value that is not an array is
/// reported with `W032InvalidPathPattern`.
fn extract_paths(
    es: &Vec<(String, JsonValue)>,
    dir: &str,
    diag: &mut DiagnosticCollector,
) -> (r: TextMap<Vec<String>>)
    ensures
        forall|k: Seq<char>| #[trigger] targets_at(&r, k) == paths_last(es@, k),
        final(diag).codes() == old(diag).codes() + paths_codes(es@),
{
    let ghost c0 = diag.codes();
    let mut m: TextMap<Vec<String>> = TextMap::new();
    let mut i: usize = 0;
    while i < es.len()
        invariant
            i <= es@.len(),
            forall|k: Seq<char>| #[trigger] targets_at(&m, k) == paths_last(es@.take(i as int), k),
            diag.codes() == c0 + paths_codes(es@.take(i as int)),
        decreases es.len() - i,
    {
        let ghost pre = es@.take(i as int);
        let ghost post = es@.take(i + 1);
        assert(post.drop_last() =~= pre);
        assert(post.last() == es@[i as int]);
        match &es[i].1 {
            JsonValue::Array(items) => {
                let targets = string_items_exec(items);
                if targets.len() > 0 {
                    let key = string_of(&chars_of(es[i].0.as_str()));
                    let ghost kv = key@;
                    let ghost tv = views_of_strings(targets@);
                    let ghost old_m = m;
                    m.insert(key, targets);
                    proof {
                        assert forall|k: Seq<char>| #[trigger] targets_at(&m, k) == paths_last(post, k) by {
                            if k != kv {
                                assert(m.spec_get(k) == old_m.spec_get(k));
                                assert(targets_at(&old_m, k) == paths_last(pre, k));
                            } else {
                                assert(post.last().0@ == kv);
                                assert(post.last().1 == JsonValue::Array(*items));
                                assert(path_targets(post.last().1) == Some(tv));
                                assert(targets_at(&m, k) == Some(tv));
                            }
                        }
                    }
                }
                assert(paths_codes(post) =~= paths_codes(pre));
            },
            _ => {
                let head = chars_of("paths pattern '");
                let tail = chars_of("' has non-array value");
                let msg = concat(&concat(&head, &chars_of(es[i].0.as_str())), &tail);
                diag.warn(Warning {
                    code: WarningCode::W032InvalidPathPattern,
                    path: tsconfig_path(dir),
                    message: string_of(&msg),
                    detail: None,
                });
                assert(paths_codes(post) =~= paths_codes(pre).push(WarningCode::W032InvalidPathPattern));
            },
        }
        i += 1;
    }
    assert(es@.take(es@.len() as int) =~= es@);
    m
}

/// What parsing a tsconfig.json text gives: the document, with comments and
/// trailing commas removed first.
pub open spec fn tsconfig_doc(content: Seq<char>) -> Result<JsonValue, Seq<char>> {
    json_parsed(strip_jsonc_spec(content))
}

/// The configuration a tsconfig document gives, for the file in
/// `config_dir`: `compilerOptions.baseUrl` when a string, and
/// `compilerOptions.paths` (see [`paths_last`]), each non-array paths value
/// reported with `W032InvalidPathPattern`.
pub fn tsconfig_from_doc(v: &JsonValue, config_dir: &str, diag: &mut DiagnosticCollector) -> (r: TsConfig)
    ensures
        config_from_doc(r, *v, config_dir@),
        final(diag).codes() == old(diag).codes() + paths_codes(paths_members(json_get(*v, "compilerOptions"@))),
{
    let co = v.get("compilerOptions");
    let base_url = match co {
        Some(c) => match c.get("baseUrl") {
            Some(b) => match b.as_str() {
                Some(s) => Some(string_of(&chars_of(s.as_str()))),
                None => None,
            },
            None => None,
        },
        None => None,
    };
    let empty: Vec<(String, JsonValue)> = Vec::new();
    let members = match co {
        Some(c) => match c.get("paths") {
            Some(JsonValue::Object(es)) => es,
            _ => &empty,
        },
        None => &empty,
    };
    let paths = extract_paths(members, config_dir, diag);
    TsConfig { config_dir: string_of(&chars_of(config_dir)), base_url, paths }
}

/// Parse a tsconfig.json text (JSON with comments): `None`, with
/// `W030ConfigParseError`, when it is not JSON; otherwise its
/// `compilerOptions.baseUrl` (when a string) and `compilerOptions.paths`
/// (see [`paths_last`]), each non-array paths value reported with
/// `W032InvalidPathPattern`.
pub fn parse_tsconfig(content: &str, config_dir: &str, diag: &mut DiagnosticCollector) -> (r: Option<TsConfig>)
    ensures
        match tsconfig_doc(content@) {
            Err(_) => r is None && final(diag).codes() == old(diag).codes().push(WarningCode::W030ConfigParseError),
            Ok(v) => {
                let co = json_get(v, "compilerOptions"@);
                &&& r matches Some(c) && c.config_dir@ == config_dir@
                    && crate::parser::traits::opt_view(c.base_url) == json_str_opt(json_get_opt(co, "baseUrl"@))
                    && forall|k: Seq<char>| #[trigger] targets_at(&c.paths, k) == paths_last(paths_members(co), k)
                &&& final(diag).codes() == old(diag).codes() + paths_codes(paths_members(co))
            },
        },
{
    let stripped = strip_jsonc_comments(content);
    let v = match parse_json(stripped.as_str()) {
        Ok(v) => v,
        Err(e) => {
            let msg = concat(&chars_of("failed to parse tsconfig.json: "), &chars_of(e.as_str()));
            diag.warn(Warning {
                code: WarningCode::W030ConfigParseError,
                path: tsconfig_path(config_dir),
                message: string_of(&msg),
                detail: None,
            });
            return None;
        },
    };
    Some(tsconfig_from_doc(&v, config_dir, diag))
}

// ---------------------------------------------------------------------------
// Following `extends`
// ---------------------------------------------------------------------------

/// The longest chain of `extends` followed.
pub const MAX_EXTENDS_DEPTH: u32 = 10;

/// The file `extends` names from the directory `dir`: joined to it, with
/// `.json` added when the file name has no extension.
pub open spec fn resolve_extends_spec(dir: Seq<char>, ext: Seq<char>) -> Seq<char> {
    let target = path_join_spec(dir, ext);
    let name = file_name_spec(target);
    if extension_spec(target) is None && name.len() > 0 && !is_dotdot_seg(name) {
        target + ".json"@
    } else {
        target
    }
}

/// `resolve_extends_spec`.
pub fn resolve_extends_path(dir: &Vec<char>, ext: &Vec<char>) -> (r: Vec<char>)
    ensures
        r@ == resolve_extends_spec(dir@, ext@),
{
    let target = path_join(dir, ext);
    let cp = CanonicalPath::from_raw(&target);
    let name = cp.file_name();
    let dotdot = name.len() == 2 && name[0] == '.' && name[1] == '.';
    proof {
        assert(dotdot == is_dotdot_seg(name@)) by {
            if name@.len() == 2 {
                assert(is_dotdot_seg(name@) == (name@[0] == '.' && name@[1] == '.'));
            }
        }
    }
    if cp.extension().is_none() && name.len() > 0 && !dotdot {
        let mut out = slice(&target, 0, target.len());
        crate::text::push_all(&mut out, &chars_of(".json"));
        assert(target@.subrange(0, target@.len() as int) =~= target@);
        out
    } else {
        target
    }
}

/// The directory of a canonical tsconfig path: its parent, or `.`.
pub open spec fn canonical_dir(c: Seq<char>) -> Seq<char> {
    match dir_parent_spec(c) {
        Some(d) => d,
        None => "."@,
    }
}

/// What loading a tsconfig file gave.
#[derive(Debug)]
pub enum TsLoad {
    /// The path does not exist.
    Missing,
    /// The file exists, under this canonical path, but could not be read.
    Unreadable { canonical: String },
    /// The file's canonical path and its text.
    Loaded { canonical: String, content: String },
}

/// What taking the load `load` does to a chain (read paths `seen0`, depth
/// `level0`, configurations `chain0`, warnings `c0`) that ends with the
/// next file `next1`, depth `level1`, read paths `seen1`, configurations
/// `chain1` and warnings `c1`.
pub open spec fn feed_effect(
    load: TsLoad,
    seen0: Seq<Seq<char>>,
    level0: nat,
    chain0: Seq<TsConfig>,
    next1: Option<Seq<char>>,
    level1: nat,
    seen1: Seq<Seq<char>>,
    chain1: Seq<TsConfig>,
    c0: Seq<WarningCode>,
    c1: Seq<WarningCode>,
) -> bool {
    match load {
        TsLoad::Missing => {
            &&& next1 is None && chain1 == chain0
            &&& c1 == c0.push(WarningCode::W033ExtendsNotFound)
        },
        TsLoad::Unreadable { canonical } => {
            &&& next1 is None && chain1 == chain0
            &&& c1 == c0.push(
                if seen0.contains(canonical@) {
                    WarningCode::W031CircularExtends
                } else {
                    WarningCode::W033ExtendsNotFound
                },
            )
        },
        TsLoad::Loaded { canonical, content } => if seen0.contains(canonical@) {
            &&& next1 is None && chain1 == chain0
            &&& c1 == c0.push(WarningCode::W031CircularExtends)
        } else {
            let dir = canonical_dir(canonical@);
            &&& seen1 =~= seen0.push(canonical@)
            &&& match tsconfig_doc(content@) {
                Err(_) => {
                    &&& next1 is None && chain1 == chain0
                    &&& c1 == c0.push(WarningCode::W030ConfigParseError)
                },
                Ok(v) => {
                    let co = json_get(v, "compilerOptions"@);
                    let codes = c0 + paths_codes(paths_members(co));
                    &&& chain1.len() == chain0.len() + 1
                    &&& chain1.drop_last() =~= chain0
                    &&& config_from_doc(chain1.last(), v, dir)
                    &&& match extends_of(v) {
                        None => next1 is None && c1 == codes,
                        Some(e) => if level0 + 1 >= MAX_EXTENDS_DEPTH {
                            next1 is None && c1 == codes.push(
                                WarningCode::W031CircularExtends,
                            )
                        } else {
                            &&& next1 == Some(resolve_extends_spec(dir, e))
                            &&& level1 == level0 + 1
                            &&& c1 == codes
                        },
                    }
                },
            }
        },
    }
}

/// The canonical path a load names, if any.
pub open spec fn load_canonical(l: TsLoad) -> Seq<char> {
    match l {
        TsLoad::Missing => Seq::empty(),
        TsLoad::Unreadable { canonical } => canonical@,
        TsLoad::Loaded { canonical, .. } => canonical@,
    }
}

/// The canonical paths the loads name.
pub open spec fn canonicals(ls: Seq<TsLoad>) -> Seq<Seq<char>> {
    ls.map_values(|l: TsLoad| load_canonical(l))
}

/// The warnings taking the load `l` records, after the files `seen` were
/// read and `level` links followed: `W033ExtendsNotFound` for a missing or
/// unreadable file, `W031CircularExtends` for one already read,
/// `W030ConfigParseError` for one that is not JSON; otherwise those of its
/// `paths`, and `W031CircularExtends` when the link it names would go past
/// the depth limit.
pub open spec fn load_codes(l: TsLoad, seen: Seq<Seq<char>>, level: nat) -> Seq<WarningCode> {
    match l {
        TsLoad::Missing => seq![WarningCode::W033ExtendsNotFound],
        TsLoad::Unreadable { canonical } => seq![
            if seen.contains(canonical@) {
                WarningCode::W031CircularExtends
            } else {
                WarningCode::W033ExtendsNotFound
            },
        ],
        TsLoad::Loaded { canonical, content } => if seen.contains(canonical@) {
            seq![WarningCode::W031CircularExtends]
        } else {
            match tsconfig_doc(content@) {
                Err(_) => seq![WarningCode::W030ConfigParseError],
                Ok(v) => paths_codes(paths_members(json_get(v, "compilerOptions"@))) + if extends_of(v) is Some && level
                    + 1 >= MAX_EXTENDS_DEPTH {
                    seq![WarningCode::W031CircularExtends]
                } else {
                    Seq::empty()
                },
            }
        },
    }
}

/// The chain goes on after the load `l` (with `seen` read and `level` links
/// followed): a new file holding JSON that extends another, below the
/// depth limit.
pub open spec fn continues(l: TsLoad, seen: Seq<Seq<char>>, level: nat) -> bool {
    &&& l is Loaded
    &&& !seen.contains(load_canonical(l))
    &&& load_next(l) is Some
    &&& level + 1 < MAX_EXTENDS_DEPTH
}

/// The warnings the loads `ls` record, in turn.
pub open spec fn loads_codes(ls: Seq<TsLoad>) -> Seq<WarningCode>
    decreases ls.len(),
{
    if ls.len() == 0 {
        Seq::empty()
    } else {
        loads_codes(ls.drop_last()) + load_codes(ls.last(), canonicals(ls.drop_last()), (ls.len() - 1) as nat)
    }
}

/// `ls` are the loads made for a chain starting at `path`: each of the path
/// the one before names, every one but the last going on, the last ending
/// the chain.
pub open spec fn loads_made<F: Fn(String) -> TsLoad>(load: F, path: Seq<char>, ls: Seq<TsLoad>) -> bool {
    &&& ls.len() > 0
    &&& forall|i: int| 0 <= i < ls.len() ==> loaded_by(load, chain_path(ls, path, i), #[trigger] ls[i])
    &&& forall|i: int| 0 <= i < ls.len() - 1 ==> continues(#[trigger] ls[i], canonicals(ls.take(i)), i as nat)
    &&& !continues(ls.last(), canonicals(ls.drop_last()), (ls.len() - 1) as nat)
}

proof fn lemma_feed_step(
    load: TsLoad,
    seen0: Seq<Seq<char>>,
    level0: nat,
    chain0: Seq<TsConfig>,
    next1: Option<Seq<char>>,
    level1: nat,
    seen1: Seq<Seq<char>>,
    chain1: Seq<TsConfig>,
    c0: Seq<WarningCode>,
    c1: Seq<WarningCode>,
)
    requires
        feed_effect(load, seen0, level0, chain0, next1, level1, seen1, chain1, c0, c1),
    ensures
        next1 is Some <==> continues(load, seen0, level0),
        c1 == c0 + load_codes(load, seen0, level0),
        next1 is Some ==> level1 == level0 + 1 && seen1 == seen0.push(load_canonical(load)) && next1 == load_next(load),
        chain1.len() == chain0.len() || chain1.len() == chain0.len() + 1,
        chain1.len() == chain0.len() + 1 <==> (!seen0.contains(load_canonical(load)) && load_doc(load) is Some),
        chain1 == chain0 || (chain1.len() == chain0.len() + 1 && chain1.drop_last() == chain0 && config_read(load, chain1.last())),
{
    match load {
        TsLoad::Missing => {
            assert(c1 =~= c0 + load_codes(load, seen0, level0));
        },
        TsLoad::Unreadable { canonical } => {
            assert(c1 =~= c0 + load_codes(load, seen0, level0));
        },
        TsLoad::Loaded { canonical, content } => {
            if seen0.contains(canonical@) {
                assert(c1 =~= c0 + load_codes(load, seen0, level0));
            } else {
                match tsconfig_doc(content@) {
                    Err(_) => {
                        assert(c1 =~= c0 + load_codes(load, seen0, level0));
                    },
                    Ok(v) => {
                        let co = json_get(v, "compilerOptions"@);
                        match extends_of(v) {
                            None => {
                                assert(c1 =~= c0 + load_codes(load, seen0, level0));
                            },
                            Some(e) => {
                                if level0 + 1 >= MAX_EXTENDS_DEPTH {
                                    assert(c1 =~= c0 + load_codes(load, seen0, level0));
                                } else {
                                    assert(c1 =~= c0 + load_codes(load, seen0, level0));
                                }
                            },
                        }
                    },
                }
            }
        },
    }
}

/// Reading a tsconfig.json and the files its `extends` chain names, one
/// file at a time: [`ExtendsChain::pending`] names the file to load next,
/// [`ExtendsChain::feed`] takes what loading it gave, and
/// [`ExtendsChain::finish`] merges what was read.
#[derive(Debug)]
pub struct ExtendsChain {
    pending: Option<String>,
    depth: u32,
    visited: Vec<String>,
    configs: Vec<TsConfig>,
}

/// The configuration `c` is what [`parse_tsconfig`] reads from the
/// document `v` in directory `dir`.
pub open spec fn config_from_doc(c: TsConfig, v: JsonValue, dir: Seq<char>) -> bool {
    let co = json_get(v, "compilerOptions"@);
    &&& c.config_dir@ == dir
    &&& crate::parser::traits::opt_view(c.base_url) == json_str_opt(json_get_opt(co, "baseUrl"@))
    &&& forall|k: Seq<char>| #[trigger] targets_at(&c.paths, k) == paths_last(paths_members(co), k)
}

/// The path `extends` names in document `v`, if any.
pub open spec fn extends_of(v: JsonValue) -> Option<Seq<char>> {
    json_str_opt(json_get(v, "extends"@))
}

impl ExtendsChain {
    /// The file to load next, if any.
    pub closed spec fn next(&self) -> Option<Seq<char>> {
        crate::parser::traits::opt_view(self.pending)
    }

    /// How many `extends` links were followed to reach the pending file.
    pub closed spec fn level(&self) -> nat {
        self.depth as nat
    }

    /// The canonical paths of the files read so far.
    pub closed spec fn seen(&self) -> Seq<Seq<char>> {
        views_of_strings(self.visited@)
    }

    /// The configurations read so far, from the first file outward.
    pub closed spec fn chain(&self) -> Seq<TsConfig> {
        self.configs@
    }

    /// A file is pending only below the depth limit.
    pub open spec fn wf(&self) -> bool {
        self.next() is Some ==> self.level() < MAX_EXTENDS_DEPTH
    }

    /// Start with the file `path`.
    pub fn new(path: &str) -> (r: ExtendsChain)
        ensures
            r.wf(),
            r.next() == Some(path@),
            r.level() == 0,
            r.seen() == Seq::<Seq<char>>::empty(),
            r.chain() == Seq::<TsConfig>::empty(),
    {
        let r = ExtendsChain {
            pending: Some(string_of(&chars_of(path))),
            depth: 0,
            visited: Vec::new(),
            configs: Vec::new(),
        };
        assert(r.seen() =~= Seq::<Seq<char>>::empty());
        r
    }

    /// The file to load next, if any.
    pub fn pending(&self) -> (r: Option<String>)
        ensures
            crate::parser::traits::opt_view(r) == self.next(),
    {
        match &self.pending {
            Some(p) => Some(string_of(&chars_of(p.as_str()))),
            None => None,
        }
    }

    /// Stop reading, with a warning about the pending file.
    fn stop(&mut self, code: WarningCode, text: &str, diag: &mut DiagnosticCollector)
        requires
            old(self).next() is Some,
        ensures
            final(self).next() is None,
            final(self).level() == old(self).level(),
            final(self).seen() == old(self).seen(),
            final(self).chain() == old(self).chain(),
            final(diag).codes() == old(diag).codes().push(code),
    {
        let p = match &self.pending {
            Some(p) => chars_of(p.as_str()),
            None => Vec::new(),
        };
        diag.warn(Warning {
            code,
            path: CanonicalPath::new(string_of(&p).as_str()),
            message: string_of(&concat(&chars_of(text), &p)),
            detail: None,
        });
        self.pending = None;
    }

    /// Take what loading the pending file gave: a missing or unreadable
    /// file (`W033ExtendsNotFound`), one already read (`W031CircularExtends`)
    /// or not JSON (`W030ConfigParseError`) ends the chain; otherwise its
    /// configuration joins the chain and the file it extends, if any, is
    /// pending next, unless that would go past the depth limit
    /// (`W031CircularExtends`).
    #[verifier::loop_isolation(false)]
    pub fn feed(&mut self, load: TsLoad, diag: &mut DiagnosticCollector)
        requires
            old(self).wf(),
            old(self).next() is Some,
        ensures
            final(self).wf(),
            old(self).level() <= final(self).level() <= MAX_EXTENDS_DEPTH,
            feed_effect(
                load,
                old(self).seen(),
                old(self).level(),
                old(self).chain(),
                final(self).next(),
                final(self).level(),
                final(self).seen(),
                final(self).chain(),
                old(diag).codes(),
                final(diag).codes(),
            ),
    {
        let ghost lg = load;
        let (canonical, content) = match load {
            TsLoad::Missing => {
                self.stop(WarningCode::W033ExtendsNotFound, "tsconfig not found: ", diag);
                return;
            },
            TsLoad::Unreadable { canonical } => (canonical, None),
            TsLoad::Loaded { canonical, content } => (canonical, Some(content)),
        };
        let cv = chars_of(canonical.as_str());
        assert(match lg {
            TsLoad::Unreadable { canonical: c } => c == canonical && content is None,
            TsLoad::Loaded { canonical: c, content: t } => c == canonical && content == Some(t),
            TsLoad::Missing => false,
        });
        let mut i: usize = 0;
        while i < self.visited.len()
            invariant
                i <= self.visited@.len(),
                self.next() is Some,
                self.level() < MAX_EXTENDS_DEPTH,
                self.seen() == old(self).seen(),
                self.chain() == old(self).chain(),
                self.level() == old(self).level(),
                diag.codes() == old(diag).codes(),
                cv@ == canonical@,
                forall|m: int| 0 <= m < i ==> self.visited@[m]@ != canonical@,
            decreases self.visited.len() - i,
        {
            if crate::text::eq(&chars_of(self.visited[i].as_str()), &cv) {
                proof {
                    assert(self.seen()[i as int] == canonical@);
                }
                self.stop(WarningCode::W031CircularExtends, "circular tsconfig extends detected: ", diag);
                assert(old(self).seen().contains(canonical@));
                assert(diag.codes() == old(diag).codes().push(WarningCode::W031CircularExtends));
                return;
            }
            i += 1;
        }
        proof {
            assert(!self.seen().contains(canonical@)) by {
                if self.seen().contains(canonical@) {
                    let m = choose|m: int| 0 <= m < self.seen().len() && self.seen()[m] == canonical@;
                    assert(self.visited@[m]@ == canonical@);
                }
            }
        }
        let ghost seen0 = self.seen();
        self.visited.push(string_of(&cv));
        assert(self.seen() =~= seen0.push(canonical@));
        let content = match content {
            None => {
                self.stop(WarningCode::W033ExtendsNotFound, "cannot read tsconfig: ", diag);
                return;
            },
            Some(c) => c,
        };
        let dir = match crate::model::dir_parent(&cv) {
            Some(d) => d,
            None => chars_of("."),
        };
        let dir_s = string_of(&dir);
        let stripped = strip_jsonc_comments(content.as_str());
        let raw = match parse_json(stripped.as_str()) {
            Ok(v) => v,
            Err(e) => {
                let p = match &self.pending {
                    Some(p) => chars_of(p.as_str()),
                    None => Vec::new(),
                };
                diag.warn(Warning {
                    code: WarningCode::W030ConfigParseError,
                    path: CanonicalPath::new(string_of(&p).as_str()),
                    message: string_of(&concat(&chars_of("failed to parse tsconfig.json: "), &chars_of(e.as_str()))),
                    detail: None,
                });
                self.pending = None;
                return;
            },
        };
        let extends = match raw.get("extends") {
            Some(x) => match x.as_str() {
                Some(s) => Some(chars_of(s.as_str())),
                None => None,
            },
            None => None,
        };
        let current = match parse_tsconfig(content.as_str(), dir_s.as_str(), diag) {
            Some(c) => c,
            None => {
                self.pending = None;
                return;
            },
        };
        self.configs.push(current);
        match extends {
            None => {
                self.pending = None;
            },
            Some(e) => {
                let next = resolve_extends_path(&dir, &e);
                if self.depth + 1 >= MAX_EXTENDS_DEPTH {
                    self.pending = Some(string_of(&next));
                    self.stop(WarningCode::W031CircularExtends, "tsconfig extends chain too deep: ", diag);
                } else {
                    self.pending = Some(string_of(&next));
                    self.depth = self.depth + 1;
                }
            },
        }
    }

    /// The configuration read, merged along the chain: `None` when the first
    /// file could not be read; otherwise the first file's directory, the
    /// first base URL and, per pattern, the first targets found from the
    /// first file outward.
    pub fn finish(self) -> (r: Option<TsConfig>)
        ensures
            self.chain().len() == 0 ==> r is None,
            self.chain().len() > 0 ==> (r matches Some(c) && merged_matches(c, self.chain())),
    {
        let mut configs = self.configs;
        let ghost cs = configs@;
        let mut merged = match configs.pop() {
            None => {
                return None;
            },
            Some(c) => c,
        };
        proof {
            assert(cs.skip(cs.len() - 1) =~= seq![merged]);
            lemma_merged_single(merged);
        }
        while configs.len() > 0
            invariant
                configs@ == cs.take(configs@.len() as int),
                configs@.len() < cs.len(),
                merged_matches(merged, cs.skip(configs@.len() as int)),
            decreases configs.len(),
        {
            let ghost m = configs@.len() - 1;
            let child = configs.pop().unwrap();
            assert(child == cs[m]);
            assert(cs.skip(m).drop_first() =~= cs.skip(m + 1));
            assert(cs.skip(m)[0] == cs[m]);
            merged = merge_configs(merged, child);
            assert(configs@ =~= cs.take(m));
        }
        assert(cs.skip(0) =~= cs);
        Some(merged)
    }
}

/// What loading the first file gave, when the configuration read has
/// `dir` for its directory: a file read from a canonical path whose
/// directory is `dir`, holding JSON.
pub open spec fn first_file(l: TsLoad, dir: Seq<char>) -> bool {
    match l {
        TsLoad::Loaded { canonical, content } => dir == canonical_dir(canonical@) && tsconfig_doc(content@) is Ok,
        _ => false,
    }
}

/// The directory of the file a load gave.
pub open spec fn load_dir(l: TsLoad) -> Seq<char> {
    match l {
        TsLoad::Loaded { canonical, .. } => canonical_dir(canonical@),
        _ => Seq::empty(),
    }
}

/// The JSON document a load gave, if it gave one.
pub open spec fn load_doc(l: TsLoad) -> Option<JsonValue> {
    match l {
        TsLoad::Loaded { content, .. } => match tsconfig_doc(content@) {
            Ok(v) => Some(v),
            Err(_) => None,
        },
        _ => None,
    }
}

/// The file the tsconfig a load gave extends, if any.
pub open spec fn load_next(l: TsLoad) -> Option<Seq<char>> {
    match load_doc(l) {
        Some(v) => match extends_of(v) {
            Some(e) => Some(resolve_extends_spec(load_dir(l), e)),
            None => None,
        },
        None => None,
    }
}

/// The path loaded at position `i` of a chain that starts at `path`.
pub open spec fn chain_path(ls: Seq<TsLoad>, path: Seq<char>, i: int) -> Seq<char> {
    if i <= 0 {
        path
    } else {
        match load_next(ls[i - 1]) {
            Some(p) => p,
            None => Seq::empty(),
        }
    }
}

/// `load` can give `l` for the file at `p`.
pub open spec fn loaded_by<F: Fn(String) -> TsLoad>(load: F, p: Seq<char>, l: TsLoad) -> bool {
    exists|s: String| s@ == p && #[trigger] load.ensures((s,), l)
}

proof fn lemma_made_step<F: Fn(String) -> TsLoad>(load: F, path: Seq<char>, made: Seq<TsLoad>, pg: String, lg: TsLoad, goes_on: bool)
    requires
        forall|i: int| 0 <= i < made.len() ==> loaded_by(load, chain_path(made, path, i), #[trigger] made[i]),
        forall|i: int| 0 <= i < made.len() ==> continues(#[trigger] made[i], canonicals(made.take(i)), i as nat),
        made.len() == 0 ==> pg@ == path,
        made.len() > 0 ==> Some(pg@) == load_next(made.last()),
        load.ensures((pg,), lg),
        goes_on <==> continues(lg, canonicals(made), made.len()),
    ensures
        ({
            let m2 = made.push(lg);
            &&& forall|i: int| 0 <= i < m2.len() ==> loaded_by(load, chain_path(m2, path, i), #[trigger] m2[i])
            &&& canonicals(m2) == canonicals(made).push(load_canonical(lg))
            &&& loads_codes(m2) == loads_codes(made) + load_codes(lg, canonicals(made), made.len())
            &&& goes_on ==> forall|i: int| 0 <= i < m2.len() ==> continues(#[trigger] m2[i], canonicals(m2.take(i)), i as nat)
            &&& !goes_on ==> loads_made(load, path, m2)
            &&& m2[0] == if made.len() == 0 { lg } else { made[0] }
        }),
{
    let m2 = made.push(lg);
    let n = made.len() as int;
    assert(m2.drop_last() =~= made);
    assert(m2.take(n) =~= made);
    assert(canonicals(m2) =~= canonicals(made).push(load_canonical(lg)));
    assert(chain_path(m2, path, n) == pg@);
    assert(loaded_by(load, chain_path(m2, path, n), lg));
    assert forall|i: int| 0 <= i < m2.len() implies loaded_by(load, chain_path(m2, path, i), #[trigger] m2[i]) by {
        if i < n {
            assert(m2[i] == made[i]);
            if i > 0 {
                assert(m2[i - 1] == made[i - 1]);
            }
            assert(chain_path(m2, path, i) == chain_path(made, path, i));
        }
    }
    assert forall|i: int| 0 <= i < n implies continues(#[trigger] m2[i], canonicals(m2.take(i)), i as nat) by {
        assert(m2[i] == made[i]);
        assert(m2.take(i) =~= made.take(i));
    }
    if goes_on {
        assert forall|i: int| 0 <= i < m2.len() implies continues(#[trigger] m2[i], canonicals(m2.take(i)), i as nat) by {
            if i < n {
                assert(m2[i] == made[i]);
                assert(m2.take(i) =~= made.take(i));
            }
        }
    }
}

/// Each of the configurations `cs` is read from the JSON document of the
/// load at its position in `made`.
pub open spec fn read_from(made: Seq<TsLoad>, cs: Seq<TsConfig>) -> bool {
    forall|i: int| 0 <= i < cs.len() ==> config_read(made[i], #[trigger] cs[i])
}

/// The configuration `c` is read from the JSON document the load `l` gave.
pub open spec fn config_read(l: TsLoad, c: TsConfig) -> bool {
    load_doc(l) matches Some(v) && config_from_doc(c, v, load_dir(l))
}

proof fn lemma_read_from_step(made: Seq<TsLoad>, lg: TsLoad, chain0: Seq<TsConfig>, chain1: Seq<TsConfig>)
    requires
        read_from(made, chain0),
        chain0.len() == made.len(),
        chain1 == chain0 || (chain1.len() == chain0.len() + 1 && chain1.drop_last() == chain0 && config_read(lg, chain1.last())),
    ensures
        read_from(made.push(lg), chain1),
{
    let m2 = made.push(lg);
    assert forall|i: int| 0 <= i < chain1.len() implies config_read(m2[i], #[trigger] chain1[i]) by {
        if i < chain0.len() {
            assert(m2[i] == made[i]);
            assert(chain1[i] == chain0[i]);
        } else {
            assert(m2[i] == lg);
            assert(chain1[i] == chain1.last());
        }
    }
}

/// The load `l`, taken after the files `seen` were read, yields a
/// configuration: a file not read before, holding JSON.
pub open spec fn yields_config(l: TsLoad, seen: Seq<Seq<char>>) -> bool {
    !seen.contains(load_canonical(l)) && load_doc(l) is Some
}

/// `cs` are the configurations the loads `made` yielded, in order: one from
/// the JSON document of each load, the last load giving one only when it
/// `yields_config`.
pub open spec fn yielded(made: Seq<TsLoad>, cs: Seq<TsConfig>) -> bool {
    &&& made.len() > 0
    &&& cs.len() == if yields_config(made.last(), canonicals(made.drop_last())) {
        made.len()
    } else {
        (made.len() - 1) as nat
    }
    &&& read_from(made, cs)
}

/// Read the tsconfig.json at `path` and the files its `extends` chain
/// names, `load` giving what each file holds, and merge them (see
/// [`ExtendsChain`]); at most [`MAX_EXTENDS_DEPTH`] files are loaded.
/// The result merges every configuration the loads made yielded
/// (`yielded`); it is `None`, with a warning, when the first file gave none.
#[verifier::spinoff_prover]
#[verifier::rlimit(80)]
pub fn parse_tsconfig_with_extends<F: Fn(String) -> TsLoad>(
    path: &str,
    load: F,
    diag: &mut DiagnosticCollector,
) -> (r: Option<TsConfig>)
    requires
        forall|p: String| load.requires((p,)),
    ensures
        final(diag).codes().len() >= old(diag).codes().len(),
        r is None ==> final(diag).codes().len() > old(diag).codes().len(),
        r matches Some(c) ==> exists|p: String, l: TsLoad|
            #![trigger load.ensures((p,), l)]
            p@ == path@ && load.ensures((p,), l) && first_file(l, c.config_dir@),
        exists|made: Seq<TsLoad>, cs: Seq<TsConfig>|
            #![trigger loads_made(load, path@, made), yielded(made, cs)]
            {
                &&& loads_made(load, path@, made)
                &&& yielded(made, cs)
                &&& final(diag).codes() == old(diag).codes() + loads_codes(made)
                &&& (r is None <==> cs.len() == 0)
                &&& (r is None <==> load_doc(made[0]) is None)
                &&& (r matches Some(c) ==> merged_matches(c, cs))
            },
{
    let ghost c0 = diag.codes();
    let mut chain = ExtendsChain::new(path);
    let ghost mut made: Seq<TsLoad> = Seq::empty();
    loop
        invariant
            made.len() == 0 ==> chain.next() == Some(path@) && diag.codes() == c0 && chain.chain().len() == 0,
            chain.next() is Some ==> chain.level() == made.len() && chain.seen() == canonicals(made) && (forall|i: int|
                0 <= i < made.len() ==> continues(#[trigger] made[i], canonicals(made.take(i)), i as nat)) && (made.len()
                > 0 ==> chain.next() == load_next(made.last())),
            forall|i: int| 0 <= i < made.len() ==> loaded_by(load, chain_path(made, path@, i), #[trigger] made[i]),
            diag.codes() == c0 + loads_codes(made),
            chain.next() is None ==> loads_made(load, path@, made),
            made.len() > 0 ==> (chain.chain().len() > 0 <==> load_doc(made[0]) is Some),
            read_from(made, chain.chain()),
            chain.next() is Some ==> chain.chain().len() == made.len(),
            made.len() > 0 ==> (chain.chain().len() == made.len() || chain.chain().len() + 1 == made.len()),
            made.len() > 0 ==> (chain.chain().len() == made.len() <==> yields_config(made.last(), canonicals(made.drop_last()))),
            chain.wf(),
            chain.level() <= MAX_EXTENDS_DEPTH,
            forall|p: String| load.requires((p,)),
            diag.codes().len() >= c0.len(),
            chain.chain().len() == 0 ==> ((chain.next() == Some(path@) && diag.codes() == c0) || (chain.next() is None
                && diag.codes().len() > c0.len())),
            chain.chain().len() > 0 ==> exists|p: String, l: TsLoad|
                #![trigger load.ensures((p,), l)]
                p@ == path@ && load.ensures((p,), l) && first_file(l, chain.chain()[0].config_dir@),
        ensures
            loads_made(load, path@, made),
            diag.codes() == c0 + loads_codes(made),
            chain.chain().len() > 0 <==> load_doc(made[0]) is Some,
            read_from(made, chain.chain()),
            chain.chain().len() == made.len() || chain.chain().len() + 1 == made.len(),
            chain.chain().len() == made.len() <==> yields_config(made.last(), canonicals(made.drop_last())),
            chain.next() is None,
            diag.codes().len() >= c0.len(),
            chain.chain().len() == 0 ==> diag.codes().len() > c0.len(),
            chain.chain().len() > 0 ==> exists|p: String, l: TsLoad|
                #![trigger load.ensures((p,), l)]
                p@ == path@ && load.ensures((p,), l) && first_file(l, chain.chain()[0].config_dir@),
        decreases MAX_EXTENDS_DEPTH - chain.level(), if chain.next() is Some { 1int } else { 0int },
    {
        match chain.pending() {
            None => {
                break;
            },
            Some(p) => {
                let ghost pg = p;
                let ghost before = chain.chain();
                let ghost seen0 = chain.seen();
                let ghost level0 = chain.level();
                let ghost codes0 = diag.codes();
                let l = load(p);
                let ghost lg = l;
                chain.feed(l, diag);
                proof {
                    lemma_feed_step(lg, seen0, level0, before, chain.next(), chain.level(), chain.seen(), chain.chain(),
                        codes0, diag.codes());
                    lemma_made_step(load, path@, made, pg, lg, chain.next() is Some);
                    let ghost made0 = made;
                    made = made.push(lg);
                    assert(made.drop_last() =~= made0);
                    if before.len() > 0 {
                        assert(chain.chain()[0] == before[0]);
                    } else if chain.chain().len() > 0 {
                        assert(pg@ == path@);
                        assert(chain.chain()[0] == chain.chain().last());
                        assert(load.ensures((pg,), lg) && first_file(lg, chain.chain()[0].config_dir@));
                    }
                    lemma_read_from_step(made0, lg, before, chain.chain());
                }
            },
        }
    }
    let r = chain.finish();
    proof {
        assert(yielded(made, chain.chain()));
        assert(loads_made(load, path@, made));
    }
    r
}

/// The first base URL along the chain.
pub open spec fn merged_base(cs: Seq<TsConfig>) -> Option<Seq<char>>
    decreases cs.len(),
{
    if cs.len() == 0 {
        None
    } else {
        match crate::parser::traits::opt_view(cs[0].base_url) {
            Some(b) => Some(b),
            None => merged_base(cs.drop_first()),
        }
    }
}

/// The first targets of pattern `k` along the chain.
pub open spec fn merged_targets(cs: Seq<TsConfig>, k: Seq<char>) -> Option<Seq<Seq<char>>>
    decreases cs.len(),
{
    if cs.len() == 0 {
        None
    } else {
        match targets_at(&cs[0].paths, k) {
            Some(t) => Some(t),
            None => merged_targets(cs.drop_first(), k),
        }
    }
}

/// `c` is the chain `cs` merged.
pub open spec fn merged_matches(c: TsConfig, cs: Seq<TsConfig>) -> bool {
    &&& cs.len() > 0
    &&& c.config_dir@ == cs[0].config_dir@
    &&& crate::parser::traits::opt_view(c.base_url) == merged_base(cs)
    &&& forall|k: Seq<char>| #[trigger] targets_at(&c.paths, k) == merged_targets(cs, k)
}

/// A chain of one merges to itself.
proof fn lemma_merged_single(c: TsConfig)
    ensures
        merged_matches(c, seq![c]),
{
    let cs = seq![c];
    assert(cs.drop_first() =~= Seq::<TsConfig>::empty());
    assert(merged_base(cs.drop_first()) is None);
    assert forall|k: Seq<char>| #[trigger] targets_at(&c.paths, k) == merged_targets(cs, k) by {
        assert(cs[0] == c);
        assert(merged_targets(cs.drop_first(), k) is None);
    }
}

/// Merge a configuration with the one it extends: the child's directory,
/// its base URL or else the parent's, and per pattern the child's targets
/// or else the parent's.
pub fn merge_configs(parent: TsConfig, child: TsConfig) -> (r: TsConfig)
    ensures
        r.config_dir@ == child.config_dir@,
        crate::parser::traits::opt_view(r.base_url) == match crate::parser::traits::opt_view(child.base_url) {
            Some(b) => Some(b),
            None => crate::parser::traits::opt_view(parent.base_url),
        },
        forall|k: Seq<char>| #[trigger] targets_at(&r.paths, k) == match targets_at(&child.paths, k) {
            Some(t) => Some(t),
            None => targets_at(&parent.paths, k),
        },
{
    let base_url = match child.base_url {
        Some(b) => Some(b),
        None => parent.base_url,
    };
    let mut paths = parent.paths;
    let ghost p0 = paths;
    let es = child.paths.entries();
    let ghost e = es@;
    proof {
        crate::model::lemma_entries_get(e);
    }
    let mut i: usize = 0;
    while i < es.len()
        invariant
            i <= es@.len(),
            e == es@,
            e == child.paths.spec_entries(),
            crate::model::sorted_distinct(crate::model::entry_keys(e)),
            forall|j: int| 0 <= j < e.len() ==> #[trigger] crate::model::entries_get(e, e[j].0@) == Some(e[j].1),
            forall|k: Seq<char>| #[trigger] targets_at(&paths, k) == if (exists|j: int| 0 <= j < i && e[j].0@ == k) {
                targets_at(&child.paths, k)
            } else {
                targets_at(&p0, k)
            },
        decreases es.len() - i,
    {
        let key = string_of(&chars_of(es[i].0.as_str()));
        let val = crate::parser::config::clone_strings(&es[i].1);
        let ghost old_paths = paths;
        let ghost kv = key@;
        proof {
            assert(child.paths.spec_get(e[i as int].0@) == Some(e[i as int].1));
        }
        paths.insert(key, val);
        proof {
            assert forall|k: Seq<char>| #[trigger] targets_at(&paths, k) == if (exists|j: int| 0 <= j < i + 1 && e[j].0@ == k) {
                targets_at(&child.paths, k)
            } else {
                targets_at(&p0, k)
            } by {
                if k == kv {
                    assert(e[i as int].0@ == k);
                } else {
                    assert(paths.spec_get(k) == old_paths.spec_get(k));
                    assert(targets_at(&old_paths, k) == targets_at(&paths, k));
                    if exists|j: int| 0 <= j < i + 1 && e[j].0@ == k {
                        let j = choose|j: int| 0 <= j < i + 1 && e[j].0@ == k;
                        assert(j < i);
                    }
                }
            }
        }
        i += 1;
    }
    proof {
        assert forall|k: Seq<char>| #[trigger] targets_at(&paths, k) == match targets_at(&child.paths, k) {
            Some(t) => Some(t),
            None => targets_at(&parent.paths, k),
        } by {
            if exists|j: int| 0 <= j < e.len() && e[j].0@ == k {
                let j = choose|j: int| 0 <= j < e.len() && e[j].0@ == k;
                assert(child.paths.spec_get(k) == Some(e[j].1));
            } else {
                assert(child.paths.spec_get(k) is None);
            }
        }
    }
    TsConfig { config_dir: child.config_dir, base_url, paths }
}

} // verus!
