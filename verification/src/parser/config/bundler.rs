//! Bundler (Vite, Webpack) alias configuration.
use vstd::prelude::*;
use crate::diagnostic::{DiagnosticCollector, Warning, WarningCode};
use crate::model::{dir_parent, dir_parent_spec, path_join, path_join_spec, CanonicalPath, TextMap};
use crate::parser::config::tsconfig::views_of_strings;
use crate::parser::traits::opt_view;
use crate::syntax::{first_child_of_kind, parse, parsed_as, parses, Grammar, SyntaxTree};
use crate::text::{chars_of, concat, replace_char, replace_char_spec, slice, string_of, trim_start_char, trim_start_char_spec};

verus! {

/// Bundler alias configuration read from `vite.config.*` or `webpack.config.*`.
#[derive(Debug)]
pub struct BundlerConfig {
    pub config_dir: String,
    /// Alias prefix to target path.
    pub aliases: TextMap<String>,
    /// `resolve.modules` entries.
    pub modules: Vec<String>,
}

// ---------------------------------------------------------------------------
// Text
// ---------------------------------------------------------------------------

/// A quote character: `'` or `"`, and the backtick where `tick` is set.
pub open spec fn quote_char(c: char, tick: bool) -> bool {
    c == '\'' || c == '"' || (tick && c == '`')
}

/// `s` without leading quote characters.
pub open spec fn trim_quotes_start(s: Seq<char>, tick: bool) -> Seq<char>
    decreases s.len(),
{
    if s.len() > 0 && quote_char(s[0], tick) {
        trim_quotes_start(s.drop_first(), tick)
    } else {
        s
    }
}

/// `s` without trailing quote characters.
pub open spec fn trim_quotes_end(s: Seq<char>, tick: bool) -> Seq<char>
    decreases s.len(),
{
    if s.len() > 0 && quote_char(s.last(), tick) {
        trim_quotes_end(s.drop_last(), tick)
    } else {
        s
    }
}

/// `s` without quote characters at either end (`str::trim_matches`).
pub open spec fn trim_quotes(s: Seq<char>, tick: bool) -> Seq<char> {
    trim_quotes_end(trim_quotes_start(s, tick), tick)
}

/// `trim_quotes`.
fn trim_quotes_exec(v: &Vec<char>, tick: bool) -> (r: Vec<char>)
    ensures
        r@ == trim_quotes(v@, tick),
{
    let mut i: usize = 0;
    assert(v@.skip(0) == v@);
    while i < v.len() && (v[i] == '\'' || v[i] == '"' || (tick && v[i] == '`'))
        invariant
            i <= v.len(),
            trim_quotes_start(v@, tick) == trim_quotes_start(v@.skip(i as int), tick),
        decreases v.len() - i,
    {
        assert(v@.skip(i as int).drop_first() == v@.skip(i + 1));
        i += 1;
    }
    if i < v.len() {
        assert(v@.skip(i as int)[0] == v@[i as int]);
    }
    let a = slice(v, i, v.len());
    assert(a@ == trim_quotes_start(v@, tick));
    let mut j: usize = a.len();
    assert(a@.take(a.len() as int) == a@);
    while j > 0 && (a[j - 1] == '\'' || a[j - 1] == '"' || (tick && a[j - 1] == '`'))
        invariant
            j <= a.len(),
            trim_quotes_end(a@, tick) == trim_quotes_end(a@.take(j as int), tick),
        decreases j,
    {
        assert(a@.take(j as int).drop_last() == a@.take(j - 1));
        j -= 1;
    }
    if j > 0 {
        assert(a@.take(j as int).last() == a@[j - 1]);
    }
    slice(&a, 0, j)
}

/// An alias target joined to the configuration's directory: a leading
/// `./` dropped, then joined unless the directory is empty or `.`, with
/// backslashes turned into slashes.
pub open spec fn normalize_alias(p: Seq<char>, dir: Seq<char>) -> Seq<char> {
    let cleaned = if seq!['.', '/'].is_prefix_of(p) {
        p.skip(2)
    } else {
        p
    };
    if dir.len() == 0 || dir == seq!['.'] {
        cleaned
    } else {
        replace_char_spec(path_join_spec(dir, cleaned), '\\', '/')
    }
}

/// `normalize_alias`.
fn normalize_alias_exec(p: &Vec<char>, dir: &Vec<char>) -> (r: Vec<char>)
    ensures
        r@ == normalize_alias(p@, dir@),
{
    let cleaned = if p.len() >= 2 && p[0] == '.' && p[1] == '/' {
        assert(seq!['.', '/'].is_prefix_of(p@)) by {
            assert(p@.take(2) =~= seq!['.', '/']);
        }
        slice(p, 2, p.len())
    } else {
        assert(!seq!['.', '/'].is_prefix_of(p@)) by {
            if seq!['.', '/'].is_prefix_of(p@) {
                assert(p@[0] == seq!['.', '/'][0]);
                assert(p@[1] == seq!['.', '/'][1]);
            }
        }
        slice(p, 0, p.len())
    };
    assert(p@.subrange(0, p@.len() as int) =~= p@);
    assert(p@.subrange(2, p@.len() as int) =~= p@.skip(2));
    if dir.len() == 0 || (dir.len() == 1 && dir[0] == '.') {
        assert(dir.len() == 1 ==> dir@ =~= seq!['.']);
        cleaned
    } else {
        assert(dir@ != seq!['.']) by {
            if dir@ == seq!['.'] {
                assert(dir@[0] == '.');
            }
        }
        let joined = path_join(dir, &cleaned);
        replace_char(&joined, '\\', '/')
    }
}

// ---------------------------------------------------------------------------
// String literals and alias values
// ---------------------------------------------------------------------------

/// Node `i` has a `template_substitution` child.
pub open spec fn has_substitution(t: &SyntaxTree, i: int) -> bool {
    exists|k: int| 0 <= k < t.children_of(i).len() && t.kind_of(t.children_of(i)[k] as int) == "template_substitution"@
}

/// The value of a string literal: a `string`, or a `template_string`
/// without substitutions, with its quotes trimmed.
pub open spec fn string_literal(t: &SyntaxTree, i: int) -> Option<Seq<char>> {
    if t.kind_of(i) == "string"@ || (t.kind_of(i) == "template_string"@ && !has_substitution(t, i)) {
        match t.text_opt_at(i) {
            Some(s) => Some(trim_quotes(s, true)),
            None => None,
        }
    } else {
        None
    }
}

/// Whether node `i` has a `template_substitution` child.
fn has_substitution_exec(t: &SyntaxTree, i: usize) -> (r: bool)
    requires
        i < t.size(),
    ensures
        r == has_substitution(t, i as int),
{
    let ch = t.children(i);
    let mut k: usize = 0;
    while k < ch.len()
        invariant
            k <= ch@.len(),
            ch@ == t.children_of(i as int),
            forall|m: int| 0 <= m < ch@.len() ==> #[trigger] ch@[m] < t.size(),
            forall|m: int| 0 <= m < k ==> t.kind_of(ch@[m] as int) != "template_substitution"@,
        decreases ch.len() - k,
    {
        if t.is_kind(ch[k], "template_substitution") {
            return true;
        }
        k += 1;
    }
    false
}

/// `string_literal`.
fn string_literal_exec(t: &SyntaxTree, i: usize) -> (r: Option<Vec<char>>)
    requires
        i < t.size(),
    ensures
        match r {
            Some(v) => string_literal(t, i as int) == Some(v@),
            None => string_literal(t, i as int) is None,
        },
{
    if t.is_kind(i, "string") || (t.is_kind(i, "template_string") && !has_substitution_exec(t, i)) {
        match t.text_opt(i) {
            Some(s) => Some(trim_quotes_exec(&s, true)),
            None => None,
        }
    } else {
        None
    }
}

/// Scanning the children of a template string from `k` on, having met a
/// substitution (`found`) and the last non-empty path fragment after it
/// (`suffix`): the path after a single leading substitution.
pub open spec fn template_scan(t: &SyntaxTree, n: int, k: int, found: bool, suffix: Option<Seq<char>>) -> Option<Seq<char>>
    decreases t.children_of(n).len() - k,
{
    let ch = t.children_of(n);
    if k < 0 || k >= ch.len() {
        if found {
            suffix
        } else {
            None
        }
    } else {
        let c = ch[k] as int;
        if t.kind_of(c) == "`"@ {
            template_scan(t, n, k + 1, found, suffix)
        } else if t.kind_of(c) == "template_substitution"@ {
            if found {
                None
            } else {
                template_scan(t, n, k + 1, true, suffix)
            }
        } else if t.kind_of(c) == "string_fragment"@ && found {
            match t.text_opt_at(c) {
                None => None,
                Some(text) => {
                    let clean = trim_start_char_spec(text, '/');
                    if clean.len() == 0 {
                        template_scan(t, n, k + 1, found, suffix)
                    } else {
                        template_scan(t, n, k + 1, found, Some(clean))
                    }
                },
            }
        } else {
            template_scan(t, n, k + 1, found, suffix)
        }
    }
}

/// `template_scan` from the first child.
fn template_suffix_exec(t: &SyntaxTree, n: usize) -> (r: Option<Vec<char>>)
    requires
        n < t.size(),
    ensures
        match r {
            Some(v) => template_scan(t, n as int, 0, false, None) == Some(v@),
            None => template_scan(t, n as int, 0, false, None) is None,
        },
{
    let ch = t.children(n);
    let mut found = false;
    let mut suffix: Option<Vec<char>> = None;
    let mut k: usize = 0;
    while k < ch.len()
        invariant
            k <= ch@.len(),
            ch@ == t.children_of(n as int),
            forall|m: int| 0 <= m < ch@.len() ==> #[trigger] ch@[m] < t.size(),
            template_scan(t, n as int, 0, false, None) == template_scan(
                t,
                n as int,
                k as int,
                found,
                match suffix {
                    Some(v) => Some(v@),
                    None => None,
                },
            ),
        decreases ch.len() - k,
    {
        let c = ch[k];
        if t.is_kind(c, "`") {
        } else if t.is_kind(c, "template_substitution") {
            if found {
                return None;
            }
            found = true;
        } else if t.is_kind(c, "string_fragment") && found {
            match t.text_opt(c) {
                None => {
                    return None;
                },
                Some(text) => {
                    let clean = trim_start_char(&text, '/');
                    if clean.len() > 0 {
                        suffix = Some(clean);
                    }
                },
            }
        }
        k += 1;
    }
    if found {
        suffix
    } else {
        None
    }
}

/// The first string literal among the children of `n` from `k` on.
pub open spec fn first_literal_from(t: &SyntaxTree, n: int, k: int) -> Option<Seq<char>>
    decreases t.children_of(n).len() - k,
{
    let ch = t.children_of(n);
    if k < 0 || k >= ch.len() {
        None
    } else {
        match string_literal(t, ch[k] as int) {
            Some(s) => Some(s),
            None => first_literal_from(t, n, k + 1),
        }
    }
}

/// `first_literal_from`.
fn first_literal_exec(t: &SyntaxTree, n: usize) -> (r: Option<Vec<char>>)
    requires
        n < t.size(),
    ensures
        match r {
            Some(v) => first_literal_from(t, n as int, 0) == Some(v@),
            None => first_literal_from(t, n as int, 0) is None,
        },
{
    let ch = t.children(n);
    let mut k: usize = 0;
    while k < ch.len()
        invariant
            k <= ch@.len(),
            ch@ == t.children_of(n as int),
            forall|m: int| 0 <= m < ch@.len() ==> #[trigger] ch@[m] < t.size(),
            first_literal_from(t, n as int, 0) == first_literal_from(t, n as int, k as int),
        decreases ch.len() - k,
    {
        match string_literal_exec(t, ch[k]) {
            Some(s) => {
                return Some(s);
            },
            None => {},
        }
        k += 1;
    }
    None
}

/// The arguments of `fileURLToPath(...)` from child `k` on: the first
/// `new URL('./p', ...)` with a string literal gives the path; a `new`
/// expression without arguments ends the search with nothing
/// (`Some(None)`); `None` when the arguments hold neither.
pub open spec fn url_scan(t: &SyntaxTree, a: int, k: int, dir: Seq<char>) -> Option<Option<Seq<char>>>
    decreases t.children_of(a).len() - k,
{
    let ch = t.children_of(a);
    if k < 0 || k >= ch.len() {
        None
    } else {
        let c = ch[k] as int;
        if t.kind_of(c) == "new_expression"@ {
            match t.field_child(c, "arguments"@) {
                None => Some(None),
                Some(na) => match first_literal_from(t, na, 0) {
                    Some(s) => Some(Some(normalize_alias(s, dir))),
                    None => url_scan(t, a, k + 1, dir),
                },
            }
        } else {
            url_scan(t, a, k + 1, dir)
        }
    }
}

/// The arguments of `path.resolve(...)` or `path.join(...)` from child `k`
/// on: the first string literal after a `__dirname` argument.
pub open spec fn dirname_scan(t: &SyntaxTree, a: int, k: int, found: bool, dir: Seq<char>) -> Option<Seq<char>>
    decreases t.children_of(a).len() - k,
{
    let ch = t.children_of(a);
    if k < 0 || k >= ch.len() {
        None
    } else {
        let c = ch[k] as int;
        let text = match t.text_opt_at(c) {
            Some(s) => s,
            None => Seq::empty(),
        };
        if text == "__dirname"@ {
            dirname_scan(t, a, k + 1, true, dir)
        } else if found && string_literal(t, c) is Some {
            Some(normalize_alias(string_literal(t, c)->0, dir))
        } else {
            dirname_scan(t, a, k + 1, found, dir)
        }
    }
}

/// `fileURLToPath(new URL('./p', ...))` as alias value, for a call whose
/// function text is `ft`: `Some(x)` when the search ends with `x`.
pub open spec fn url_alias(t: &SyntaxTree, n: int, ft: Seq<char>, dir: Seq<char>) -> Option<Option<Seq<char>>> {
    if ft == "fileURLToPath"@ {
        match t.field_child(n, "arguments"@) {
            None => Some(None),
            Some(a) => url_scan(t, a, 0, dir),
        }
    } else {
        None
    }
}

/// `path.resolve(__dirname, 'p')` or `path.join(__dirname, 'p')` as alias
/// value, for a call whose function text is `ft`.
pub open spec fn join_alias(t: &SyntaxTree, n: int, ft: Seq<char>, dir: Seq<char>) -> Option<Seq<char>> {
    if ft == "path.resolve"@ || ft == "path.join"@ {
        match t.field_child(n, "arguments"@) {
            None => None,
            Some(a) => dirname_scan(t, a, 0, false, dir),
        }
    } else {
        None
    }
}

/// What a call expression as alias value gives: `fileURLToPath(new URL(..))`,
/// then `path.resolve(__dirname, ..)` or `path.join(__dirname, ..)`.
pub open spec fn call_alias(t: &SyntaxTree, n: int, dir: Seq<char>) -> Option<Seq<char>> {
    match t.field_child(n, "function"@) {
        None => None,
        Some(f) => match t.text_opt_at(f) {
            None => None,
            Some(ft) => match url_alias(t, n, ft, dir) {
                Some(x) => x,
                None => join_alias(t, n, ft, dir),
            },
        },
    }
}

/// What `__dirname + '/p'` as alias value gives.
pub open spec fn concat_alias(t: &SyntaxTree, n: int, dir: Seq<char>) -> Option<Seq<char>> {
    match t.field_child(n, "left"@) {
        None => None,
        Some(l) => match t.text_opt_at(l) {
            None => None,
            Some(lt) => if lt == "__dirname"@ {
                match t.field_child(n, "right"@) {
                    None => None,
                    Some(rn) => match string_literal(t, rn) {
                        Some(s) => Some(normalize_alias(trim_start_char_spec(s, '/'), dir)),
                        None => None,
                    },
                }
            } else {
                None
            },
        },
    }
}

/// The path an alias value names, relative to the project root: a string
/// literal, `fileURLToPath(new URL('./p', import.meta.url))`,
/// `path.resolve(__dirname, 'p')` or `path.join(__dirname, 'p')`,
/// `__dirname + '/p'`, or `` `${d}/p` ``; nothing for anything else.
pub open spec fn resolve_alias(t: &SyntaxTree, n: int, dir: Seq<char>) -> Option<Seq<char>> {
    match string_literal(t, n) {
        Some(s) => Some(normalize_alias(s, dir)),
        None => if t.kind_of(n) == "call_expression"@ {
            call_alias(t, n, dir)
        } else if t.kind_of(n) == "binary_expression"@ {
            concat_alias(t, n, dir)
        } else if t.kind_of(n) == "template_string"@ {
            match template_scan(t, n, 0, false, None) {
                Some(p) => Some(normalize_alias(p, dir)),
                None => None,
            }
        } else {
            None
        },
    }
}

/// The view of an optional text.
pub open spec fn chars_opt(o: Option<Vec<char>>) -> Option<Seq<char>> {
    match o {
        Some(v) => Some(v@),
        None => None,
    }
}

/// `url_scan` from the first child.
fn url_scan_exec(t: &SyntaxTree, a: usize, dir: &Vec<char>) -> (r: Option<Option<Vec<char>>>)
    requires
        a < t.size(),
    ensures
        match r {
            Some(x) => url_scan(t, a as int, 0, dir@) == Some(chars_opt(x)),
            None => url_scan(t, a as int, 0, dir@) is None,
        },
{
    let ch = t.children(a);
    let mut k: usize = 0;
    while k < ch.len()
        invariant
            k <= ch@.len(),
            ch@ == t.children_of(a as int),
            forall|m: int| 0 <= m < ch@.len() ==> #[trigger] ch@[m] < t.size(),
            url_scan(t, a as int, 0, dir@) == url_scan(t, a as int, k as int, dir@),
        decreases ch.len() - k,
    {
        let c = ch[k];
        if t.is_kind(c, "new_expression") {
            match t.child_by_field(c, "arguments") {
                None => {
                    return Some(None);
                },
                Some(na) => match first_literal_exec(t, na) {
                    Some(s) => {
                        return Some(Some(normalize_alias_exec(&s, dir)));
                    },
                    None => {},
                },
            }
        }
        k += 1;
    }
    None
}

/// `dirname_scan` from the first child.
fn dirname_scan_exec(t: &SyntaxTree, a: usize, dir: &Vec<char>) -> (r: Option<Vec<char>>)
    requires
        a < t.size(),
    ensures
        chars_opt(r) == dirname_scan(t, a as int, 0, false, dir@),
{
    let ch = t.children(a);
    let mut found = false;
    let mut k: usize = 0;
    while k < ch.len()
        invariant
            k <= ch@.len(),
            ch@ == t.children_of(a as int),
            forall|m: int| 0 <= m < ch@.len() ==> #[trigger] ch@[m] < t.size(),
            dirname_scan(t, a as int, 0, false, dir@) == dirname_scan(t, a as int, k as int, found, dir@),
        decreases ch.len() - k,
    {
        let c = ch[k];
        let text = match t.text_opt(c) {
            Some(s) => s,
            None => Vec::new(),
        };
        if crate::text::eq(&text, &chars_of("__dirname")) {
            found = true;
        } else if found {
            match string_literal_exec(t, c) {
                Some(s) => {
                    return Some(normalize_alias_exec(&s, dir));
                },
                None => {},
            }
        }
        k += 1;
    }
    None
}

/// `url_alias`.
fn url_alias_exec(t: &SyntaxTree, n: usize, ft: &Vec<char>, dir: &Vec<char>) -> (r: Option<Option<Vec<char>>>)
    requires
        n < t.size(),
    ensures
        match r {
            Some(x) => url_alias(t, n as int, ft@, dir@) == Some(chars_opt(x)),
            None => url_alias(t, n as int, ft@, dir@) is None,
        },
{
    if crate::text::eq(ft, &chars_of("fileURLToPath")) {
        match t.child_by_field(n, "arguments") {
            None => Some(None),
            Some(a) => url_scan_exec(t, a, dir),
        }
    } else {
        None
    }
}

/// `join_alias`.
fn join_alias_exec(t: &SyntaxTree, n: usize, ft: &Vec<char>, dir: &Vec<char>) -> (r: Option<Vec<char>>)
    requires
        n < t.size(),
    ensures
        chars_opt(r) == join_alias(t, n as int, ft@, dir@),
{
    if crate::text::eq(ft, &chars_of("path.resolve")) || crate::text::eq(ft, &chars_of("path.join")) {
        match t.child_by_field(n, "arguments") {
            None => None,
            Some(a) => dirname_scan_exec(t, a, dir),
        }
    } else {
        None
    }
}

/// `call_alias`.
fn call_alias_exec(t: &SyntaxTree, n: usize, dir: &Vec<char>) -> (r: Option<Vec<char>>)
    requires
        n < t.size(),
    ensures
        chars_opt(r) == call_alias(t, n as int, dir@),
{
    match t.child_by_field(n, "function") {
        None => None,
        Some(f) => match t.text_opt(f) {
            None => None,
            Some(ft) => match url_alias_exec(t, n, &ft, dir) {
                Some(x) => x,
                None => join_alias_exec(t, n, &ft, dir),
            },
        },
    }
}

/// `concat_alias`.
fn concat_alias_exec(t: &SyntaxTree, n: usize, dir: &Vec<char>) -> (r: Option<Vec<char>>)
    requires
        n < t.size(),
    ensures
        chars_opt(r) == concat_alias(t, n as int, dir@),
{
    let l = match t.child_by_field(n, "left") {
        None => {
            return None;
        },
        Some(l) => l,
    };
    let lt = match t.text_opt(l) {
        None => {
            return None;
        },
        Some(lt) => lt,
    };
    if !crate::text::eq(&lt, &chars_of("__dirname")) {
        return None;
    }
    match t.child_by_field(n, "right") {
        None => None,
        Some(rn) => match string_literal_exec(t, rn) {
            Some(s) => Some(normalize_alias_exec(&trim_start_char(&s, '/'), dir)),
            None => None,
        },
    }
}

/// `resolve_alias`.
fn resolve_alias_exec(t: &SyntaxTree, n: usize, dir: &Vec<char>) -> (r: Option<Vec<char>>)
    requires
        n < t.size(),
    ensures
        chars_opt(r) == resolve_alias(t, n as int, dir@),
{
    match string_literal_exec(t, n) {
        Some(s) => Some(normalize_alias_exec(&s, dir)),
        None => if t.is_kind(n, "call_expression") {
            call_alias_exec(t, n, dir)
        } else if t.is_kind(n, "binary_expression") {
            concat_alias_exec(t, n, dir)
        } else if t.is_kind(n, "template_string") {
            match template_suffix_exec(t, n) {
                Some(p) => Some(normalize_alias_exec(&p, dir)),
                None => None,
            }
        } else {
            None
        },
    }
}

// ---------------------------------------------------------------------------
// Object properties
// ---------------------------------------------------------------------------

/// Node `c` is a property of an object literal.
pub open spec fn is_property(t: &SyntaxTree, c: int) -> bool {
    t.kind_of(c) == "pair"@ || t.kind_of(c) == "property_assignment"@
}

/// The value of property `name` among the children of object `obj` from
/// child `k` on; a property without a key, or with a key that is not text,
/// ends the search with nothing.
pub open spec fn prop_value_from(t: &SyntaxTree, obj: int, name: Seq<char>, k: int) -> Option<int>
    decreases t.children_of(obj).len() - k,
{
    let ch = t.children_of(obj);
    if k < 0 || k >= ch.len() {
        None
    } else {
        let c = ch[k] as int;
        if is_property(t, c) {
            match t.field_child(c, "key"@) {
                None => None,
                Some(key) => match t.text_opt_at(key) {
                    None => None,
                    Some(kt) => if trim_quotes(kt, false) == name {
                        t.field_child(c, "value"@)
                    } else {
                        prop_value_from(t, obj, name, k + 1)
                    },
                },
            }
        } else {
            prop_value_from(t, obj, name, k + 1)
        }
    }
}

/// The value of property `name` of object `obj`.
pub open spec fn prop_value(t: &SyntaxTree, obj: int, name: Seq<char>) -> Option<int> {
    prop_value_from(t, obj, name, 0)
}

/// The value of property `name` of object `obj`, when it is an object.
pub open spec fn prop_object(t: &SyntaxTree, obj: int, name: Seq<char>) -> Option<int> {
    match prop_value(t, obj, name) {
        Some(v) => if t.kind_of(v) == "object"@ {
            Some(v)
        } else {
            None
        },
        None => None,
    }
}

/// `prop_value`.
fn prop_value_exec(t: &SyntaxTree, obj: usize, name: &str) -> (r: Option<usize>)
    requires
        obj < t.size(),
    ensures
        r matches Some(v) ==> v < t.size() && prop_value(t, obj as int, name@) == Some(v as int),
        r is None ==> prop_value(t, obj as int, name@) is None,
{
    let ch = t.children(obj);
    let want = chars_of(name);
    let mut k: usize = 0;
    while k < ch.len()
        invariant
            k <= ch@.len(),
            ch@ == t.children_of(obj as int),
            want@ == name@,
            forall|m: int| 0 <= m < ch@.len() ==> #[trigger] ch@[m] < t.size(),
            prop_value(t, obj as int, name@) == prop_value_from(t, obj as int, name@, k as int),
        decreases ch.len() - k,
    {
        let c = ch[k];
        if t.is_kind(c, "pair") || t.is_kind(c, "property_assignment") {
            let key = match t.child_by_field(c, "key") {
                None => {
                    return None;
                },
                Some(key) => key,
            };
            let kt = match t.text_opt(key) {
                None => {
                    return None;
                },
                Some(kt) => kt,
            };
            if crate::text::eq(&trim_quotes_exec(&kt, false), &want) {
                return t.child_by_field(c, "value");
            }
        }
        k += 1;
    }
    None
}

/// `prop_object`.
fn prop_object_exec(t: &SyntaxTree, obj: usize, name: &str) -> (r: Option<usize>)
    requires
        obj < t.size(),
    ensures
        r matches Some(v) ==> v < t.size() && prop_object(t, obj as int, name@) == Some(v as int),
        r is None ==> prop_object(t, obj as int, name@) is None,
{
    match prop_value_exec(t, obj, name) {
        Some(v) => if t.is_kind(v, "object") {
            Some(v)
        } else {
            None
        },
        None => None,
    }
}

// ---------------------------------------------------------------------------
// Alias entries
// ---------------------------------------------------------------------------

/// What one entry of an alias object or array gives: a binding of an alias
/// to a path, or a value that was not understood (which is reported).
pub enum AliasItem {
    Bound(Seq<char>, Seq<char>),
    Skipped,
}

/// Entry `c` of an alias object `{ '@': './src' }`.
pub open spec fn object_alias_item(t: &SyntaxTree, c: int, dir: Seq<char>) -> Option<AliasItem> {
    if !is_property(t, c) {
        None
    } else {
        match t.field_child(c, "key"@) {
            None => None,
            Some(key) => match t.text_opt_at(key) {
                None => None,
                Some(kt) => match t.field_child(c, "value"@) {
                    None => None,
                    Some(v) => match resolve_alias(t, v, dir) {
                        Some(p) => Some(AliasItem::Bound(trim_quotes(kt, true), p)),
                        None => Some(AliasItem::Skipped),
                    },
                },
            },
        }
    }
}

/// Entry `c` of an alias array `[{ find: '@', replacement: './src' }]`.
pub open spec fn array_alias_item(t: &SyntaxTree, c: int, dir: Seq<char>) -> Option<AliasItem> {
    if t.kind_of(c) != "object"@ {
        None
    } else {
        match (prop_value(t, c, "find"@), prop_value(t, c, "replacement"@)) {
            (Some(f), Some(r)) => match string_literal(t, f) {
                None => None,
                Some(ft) => match resolve_alias(t, r, dir) {
                    Some(p) => Some(AliasItem::Bound(ft, p)),
                    None => Some(AliasItem::Skipped),
                },
            },
            _ => None,
        }
    }
}

/// Child `c` of the alias value `node`, in its object or array form.
pub open spec fn alias_item(t: &SyntaxTree, node: int, c: int, dir: Seq<char>) -> Option<AliasItem> {
    if t.kind_of(node) == "object"@ {
        object_alias_item(t, c, dir)
    } else if t.kind_of(node) == "array"@ {
        array_alias_item(t, c, dir)
    } else {
        None
    }
}

/// The items the first `k` children of the alias value `node` give.
pub open spec fn alias_items(t: &SyntaxTree, node: int, k: int, dir: Seq<char>) -> Seq<AliasItem>
    decreases k,
{
    let ch = t.children_of(node);
    if k <= 0 || k > ch.len() {
        Seq::empty()
    } else {
        alias_items(t, node, k - 1, dir) + match alias_item(t, node, ch[k - 1] as int, dir) {
            Some(it) => seq![it],
            None => Seq::empty(),
        }
    }
}

/// All the items of the alias value `node`.
pub open spec fn all_alias_items(t: &SyntaxTree, node: int, dir: Seq<char>) -> Seq<AliasItem> {
    alias_items(t, node, t.children_of(node).len() as int, dir)
}

/// The path the last binding of alias `k` gives, if any.
pub open spec fn last_bound(s: Seq<AliasItem>, k: Seq<char>) -> Option<Seq<char>>
    decreases s.len(),
{
    if s.len() == 0 {
        None
    } else {
        match s.last() {
            AliasItem::Bound(a, p) => if a == k {
                Some(p)
            } else {
                last_bound(s.drop_last(), k)
            },
            AliasItem::Skipped => last_bound(s.drop_last(), k),
        }
    }
}

/// Some item binds an alias.
pub open spec fn has_bound(s: Seq<AliasItem>) -> bool {
    exists|i: int| 0 <= i < s.len() && s[i] is Bound
}

/// One `W045DynamicAliasSkipped` per skipped item, in order.
pub open spec fn skip_codes(s: Seq<AliasItem>) -> Seq<WarningCode>
    decreases s.len(),
{
    if s.len() == 0 {
        Seq::empty()
    } else {
        skip_codes(s.drop_last()) + if s.last() is Skipped {
            seq![WarningCode::W045DynamicAliasSkipped]
        } else {
            Seq::empty()
        }
    }
}

/// The alias text, the path (nothing where the value is not understood)
/// and the value node of one entry.
pub open spec fn entry_matches(e: Option<(Vec<char>, Option<Vec<char>>, usize)>, it: Option<AliasItem>) -> bool {
    match e {
        None => it is None,
        Some((k, Some(p), _)) => it == Some(AliasItem::Bound(k@, p@)),
        Some((_, None, _)) => it == Some(AliasItem::Skipped),
    }
}

/// `object_alias_item`.
fn object_alias_item_exec(t: &SyntaxTree, c: usize, dir: &Vec<char>) -> (r: Option<(Vec<char>, Option<Vec<char>>, usize)>)
    requires
        c < t.size(),
    ensures
        entry_matches(r, object_alias_item(t, c as int, dir@)),
        r matches Some(e) ==> e.2 < t.size(),
{
    if !(t.is_kind(c, "pair") || t.is_kind(c, "property_assignment")) {
        return None;
    }
    let key = match t.child_by_field(c, "key") {
        None => {
            return None;
        },
        Some(key) => key,
    };
    let kt = match t.text_opt(key) {
        None => {
            return None;
        },
        Some(kt) => kt,
    };
    let v = match t.child_by_field(c, "value") {
        None => {
            return None;
        },
        Some(v) => v,
    };
    let p = resolve_alias_exec(t, v, dir);
    Some((trim_quotes_exec(&kt, true), p, v))
}

/// `array_alias_item`.
fn array_alias_item_exec(t: &SyntaxTree, c: usize, dir: &Vec<char>) -> (r: Option<(Vec<char>, Option<Vec<char>>, usize)>)
    requires
        c < t.size(),
    ensures
        entry_matches(r, array_alias_item(t, c as int, dir@)),
        r matches Some(e) ==> e.2 < t.size(),
{
    if !t.is_kind(c, "object") {
        return None;
    }
    let f = prop_value_exec(t, c, "find");
    let rv = prop_value_exec(t, c, "replacement");
    match (f, rv) {
        (Some(f), Some(rv)) => match string_literal_exec(t, f) {
            None => None,
            Some(ft) => {
                let p = resolve_alias_exec(t, rv, dir);
                Some((ft, p, rv))
            },
        },
        _ => None,
    }
}

/// `alias_item`.
fn alias_item_exec(t: &SyntaxTree, node: usize, c: usize, dir: &Vec<char>) -> (r: Option<(Vec<char>, Option<Vec<char>>, usize)>)
    requires
        node < t.size(),
        c < t.size(),
    ensures
        entry_matches(r, alias_item(t, node as int, c as int, dir@)),
        r matches Some(e) ==> e.2 < t.size(),
{
    if t.is_kind(node, "object") {
        object_alias_item_exec(t, c, dir)
    } else if t.is_kind(node, "array") {
        array_alias_item_exec(t, c, dir)
    } else {
        None
    }
}

/// The warning for an alias value that was not understood.
fn skipped_alias_warning(path: &CanonicalPath, key: &Vec<char>, value_text: Option<Vec<char>>) -> (w: Warning)
    ensures
        w.code == WarningCode::W045DynamicAliasSkipped,
{
    let head = chars_of("unrecognized alias value for '");
    let tail = chars_of("', skipping");
    let message = concat(&concat(&head, key), &tail);
    let detail = match value_text {
        Some(v) => v,
        None => chars_of("<unknown>"),
    };
    Warning {
        code: WarningCode::W045DynamicAliasSkipped,
        path: path.duplicate(),
        message: string_of(&message),
        detail: Some(string_of(&detail)),
    }
}

/// Read the aliases of the alias value `node` (an object or an array):
/// each alias maps to the path its last understood entry gives; each entry
/// whose value is not understood is reported with `W045DynamicAliasSkipped`.
#[verifier::rlimit(30)]
fn extract_aliases(
    t: &SyntaxTree,
    node: usize,
    dir: &Vec<char>,
    diag_path: &CanonicalPath,
    diag: &mut DiagnosticCollector,
) -> (r: TextMap<String>)
    requires
        node < t.size(),
    ensures
        forall|k: Seq<char>| #[trigger] opt_view(r.spec_get(k)) == last_bound(all_alias_items(t, node as int, dir@), k),
        (r.spec_entries().len() == 0) == !has_bound(all_alias_items(t, node as int, dir@)),
        final(diag).codes() == old(diag).codes() + skip_codes(all_alias_items(t, node as int, dir@)),
{
    let ghost codes0 = diag.codes();
    let mut map: TextMap<String> = TextMap::new();
    let ch = t.children(node);
    let mut k: usize = 0;
    while k < ch.len()
        invariant
            k <= ch@.len(),
            node < t.size(),
            ch@ == t.children_of(node as int),
            forall|m: int| 0 <= m < ch@.len() ==> #[trigger] ch@[m] < t.size(),
            forall|x: Seq<char>| #[trigger] opt_view(map.spec_get(x)) == last_bound(alias_items(t, node as int, k as int, dir@), x),
            (map.keys().len() == 0) == !has_bound(alias_items(t, node as int, k as int, dir@)),
            diag.codes() == codes0 + skip_codes(alias_items(t, node as int, k as int, dir@)),
        decreases ch.len() - k,
    {
        let ghost before = alias_items(t, node as int, k as int, dir@);
        let ghost m0 = map.keys();
        let e = alias_item_exec(t, node, ch[k], dir);
        let ghost it = alias_item(t, node as int, ch@[k as int] as int, dir@);
        let ghost after = alias_items(t, node as int, k + 1, dir@);
        assert(after == before + match it {
            Some(i) => seq![i],
            None => Seq::<AliasItem>::empty(),
        });
        match e {
            Some((key, Some(p), _)) => {
                let ks = string_of(&key);
                let ps = string_of(&p);
                let ghost old_map = map;
                map.insert(ks, ps);
                proof {
                    assert(after == before.push(AliasItem::Bound(key@, p@)));
                    assert(after.drop_last() == before);
                    assert forall|x: Seq<char>| #[trigger] opt_view(map.spec_get(x)) == last_bound(after, x) by {
                        assert(opt_view(map.spec_get(x)) == if x == key@ { Some(p@) } else { opt_view(old_map.spec_get(x)) }) by {
                            if x != key@ {
                                assert(map.spec_get(x) == old_map.spec_get(x));
                            }
                        }
                    }
                    assert(map.keys().contains(key@));
                    assert(has_bound(after)) by {
                        assert(after[after.len() - 1] is Bound);
                    }
                    assert(skip_codes(after) == skip_codes(before));
                }
            },
            Some((key, None, v)) => {
                let value_text = t.text_opt(v);
                diag.warn(skipped_alias_warning(diag_path, &key, value_text));
                proof {
                    assert(after == before.push(AliasItem::Skipped));
                    assert(after.drop_last() == before);
                    assert forall|x: Seq<char>| #[trigger] opt_view(map.spec_get(x)) == last_bound(after, x) by {}
                    assert(has_bound(after) == has_bound(before)) by {
                        if has_bound(after) {
                            let i = choose|i: int| 0 <= i < after.len() && after[i] is Bound;
                            assert(before[i] is Bound);
                        }
                        if has_bound(before) {
                            let i = choose|i: int| 0 <= i < before.len() && before[i] is Bound;
                            assert(after[i] is Bound);
                        }
                    }
                    assert(skip_codes(after) == skip_codes(before).push(WarningCode::W045DynamicAliasSkipped));
                }
            },
            None => {
                proof {
                    assert(after == before);
                }
            },
        }
        k += 1;
    }
    proof {
        if map.spec_entries().len() == 0 {
            assert(map.keys().len() == 0);
        }
    }
    map
}

/// The string literals among the first `k` children of `n`.
pub open spec fn literals_of(t: &SyntaxTree, n: int, k: int) -> Seq<Seq<char>>
    decreases k,
{
    let ch = t.children_of(n);
    if k <= 0 || k > ch.len() {
        Seq::empty()
    } else {
        literals_of(t, n, k - 1) + match string_literal(t, ch[k - 1] as int) {
            Some(s) => seq![s],
            None => Seq::empty(),
        }
    }
}

/// The string literals of an array node; nothing for another node.
pub open spec fn string_array(t: &SyntaxTree, n: int) -> Seq<Seq<char>> {
    if t.kind_of(n) == "array"@ {
        literals_of(t, n, t.children_of(n).len() as int)
    } else {
        Seq::empty()
    }
}

/// `string_array`.
fn string_array_exec(t: &SyntaxTree, n: usize) -> (r: Vec<String>)
    requires
        n < t.size(),
    ensures
        views_of_strings(r@) == string_array(t, n as int),
{
    let mut out: Vec<String> = Vec::new();
    if !t.is_kind(n, "array") {
        assert(views_of_strings(out@) =~= Seq::<Seq<char>>::empty());
        return out;
    }
    let ch = t.children(n);
    let mut k: usize = 0;
    while k < ch.len()
        invariant
            k <= ch@.len(),
            ch@ == t.children_of(n as int),
            forall|m: int| 0 <= m < ch@.len() ==> #[trigger] ch@[m] < t.size(),
            views_of_strings(out@) == literals_of(t, n as int, k as int),
        decreases ch.len() - k,
    {
        let ghost before = out@;
        match string_literal_exec(t, ch[k]) {
            Some(s) => {
                out.push(string_of(&s));
                assert(views_of_strings(out@) =~= views_of_strings(before).push(s@));
            },
            None => {},
        }
        assert(views_of_strings(out@) =~= literals_of(t, n as int, k + 1));
        k += 1;
    }
    out
}

// ---------------------------------------------------------------------------
// Finding the configuration object
// ---------------------------------------------------------------------------

/// The first node of the subtree of `n`, in preorder, at which `h` finds
/// something, and what it finds.
pub open spec fn dfs_first(t: &SyntaxTree, n: int, h: spec_fn(int) -> Option<int>) -> Option<int>
    decreases t.size() - n, t.children_of(n).len() + 1,
{
    match h(n) {
        Some(x) => Some(x),
        None => dfs_children(t, n, 0, h),
    }
}

/// `dfs_first` over the subtrees of the children of `n` from child `k` on.
pub open spec fn dfs_children(t: &SyntaxTree, n: int, k: int, h: spec_fn(int) -> Option<int>) -> Option<int>
    decreases t.size() - n, t.children_of(n).len() - k,
{
    let ch = t.children_of(n);
    if k < 0 || k >= ch.len() {
        None
    } else {
        let c = ch[k] as int;
        let sub = if n < c < t.size() {
            dfs_first(t, c, h)
        } else {
            None
        };
        match sub {
            Some(x) => Some(x),
            None => dfs_children(t, n, k + 1, h),
        }
    }
}

/// An index as an integer.
pub open spec fn opt_index(r: Option<usize>) -> Option<int> {
    match r {
        Some(x) => Some(x as int),
        None => None,
    }
}

/// The object of `return { ... }` from child `k` of return statement `m`
/// on, also behind `as` or `satisfies`.
pub open spec fn return_scan(t: &SyntaxTree, m: int, k: int) -> Option<int>
    decreases t.children_of(m).len() - k,
{
    let ch = t.children_of(m);
    if k < 0 || k >= ch.len() {
        None
    } else {
        let c = ch[k] as int;
        if t.kind_of(c) == "object"@ {
            Some(c)
        } else if t.kind_of(c) == "as_expression"@ || t.kind_of(c) == "satisfies_expression"@ {
            match first_child_of_kind(t, c, "object"@) {
                Some(o) => Some(o as int),
                None => return_scan(t, m, k + 1),
            }
        } else {
            return_scan(t, m, k + 1)
        }
    }
}

/// At a return statement, the object it returns.
pub open spec fn return_hit(t: &SyntaxTree, m: int) -> Option<int> {
    if t.kind_of(m) == "return_statement"@ {
        return_scan(t, m, 0)
    } else {
        None
    }
}

/// `return_hit` as a function of the node.
pub open spec fn return_hit_fn(t: &SyntaxTree) -> spec_fn(int) -> Option<int> {
    |m: int| return_hit(t, m)
}

/// The object argument of `defineConfig(...)` among the arguments `a` from
/// child `k` on: an object itself, or what the first callback returns.
pub open spec fn define_args_scan(t: &SyntaxTree, a: int, k: int) -> Option<int>
    decreases t.children_of(a).len() - k,
{
    let ch = t.children_of(a);
    if k < 0 || k >= ch.len() {
        None
    } else {
        let c = ch[k] as int;
        if t.kind_of(c) == "object"@ {
            Some(c)
        } else if t.kind_of(c) == "arrow_function"@ || t.kind_of(c) == "function"@ {
            dfs_first(t, c, return_hit_fn(t))
        } else {
            define_args_scan(t, a, k + 1)
        }
    }
}

/// At a call `defineConfig(...)`, the configuration object.
pub open spec fn define_hit(t: &SyntaxTree, m: int) -> Option<int> {
    if t.kind_of(m) == "call_expression"@ {
        match t.field_child(m, "function"@) {
            None => None,
            Some(f) => if t.text_opt_at(f) == Some("defineConfig"@) {
                match t.field_child(m, "arguments"@) {
                    None => None,
                    Some(a) => define_args_scan(t, a, 0),
                }
            } else {
                None
            },
        }
    } else {
        None
    }
}

/// `define_hit` as a function of the node.
pub open spec fn define_hit_fn(t: &SyntaxTree) -> spec_fn(int) -> Option<int> {
    |m: int| define_hit(t, m)
}

/// At a statement `module.exports = { ... }`, the object.
pub open spec fn exports_hit(t: &SyntaxTree, m: int) -> Option<int> {
    let ch = t.children_of(m);
    if t.kind_of(m) == "expression_statement"@ && ch.len() > 0 && t.kind_of(ch[0] as int) == "assignment_expression"@ {
        let e = ch[0] as int;
        match t.field_child(e, "left"@) {
            None => None,
            Some(l) => if t.text_opt_at(l) == Some("module.exports"@) {
                match t.field_child(e, "right"@) {
                    Some(rn) => if t.kind_of(rn) == "object"@ {
                        Some(rn)
                    } else {
                        None
                    },
                    None => None,
                }
            } else {
                None
            },
        }
    } else {
        None
    }
}

/// `exports_hit` as a function of the node.
pub open spec fn exports_hit_fn(t: &SyntaxTree) -> spec_fn(int) -> Option<int> {
    |m: int| exports_hit(t, m)
}

/// The object of `export default { ... }` (also with `satisfies`) among the
/// children of export statement `s` from `j` on, `default` having been
/// seen already where `seen` is set.
pub open spec fn export_stmt_scan(t: &SyntaxTree, s: int, j: int, seen: bool) -> Option<int>
    decreases t.children_of(s).len() - j,
{
    let ch = t.children_of(s);
    if j < 0 || j >= ch.len() {
        None
    } else {
        let g = ch[j] as int;
        let d = seen || t.text_opt_at(g) == Some("default"@);
        if d && t.kind_of(g) == "object"@ {
            Some(g)
        } else if d && t.kind_of(g) == "satisfies_expression"@ {
            match first_child_of_kind(t, g, "object"@) {
                Some(o) => Some(o as int),
                None => export_stmt_scan(t, s, j + 1, d),
            }
        } else {
            export_stmt_scan(t, s, j + 1, d)
        }
    }
}

/// The first `export default` object among the top-level statements from
/// child `k` of the root on.
pub open spec fn export_default_from(t: &SyntaxTree, k: int) -> Option<int>
    decreases t.children_of(0).len() - k,
{
    let ch = t.children_of(0);
    if k < 0 || k >= ch.len() {
        None
    } else {
        let c = ch[k] as int;
        let here = if t.kind_of(c) == "export_statement"@ {
            export_stmt_scan(t, c, 0, false)
        } else {
            None
        };
        match here {
            Some(o) => Some(o),
            None => export_default_from(t, k + 1),
        }
    }
}

/// `return_scan` from the first child.
fn return_hit_exec(t: &SyntaxTree, m: usize) -> (r: Option<usize>)
    requires
        m < t.size(),
    ensures
        opt_index(r) == return_hit(t, m as int),
        r matches Some(x) ==> x < t.size(),
{
    if !t.is_kind(m, "return_statement") {
        return None;
    }
    let ch = t.children(m);
    let mut k: usize = 0;
    while k < ch.len()
        invariant
            k <= ch@.len(),
            ch@ == t.children_of(m as int),
            forall|i: int| 0 <= i < ch@.len() ==> #[trigger] ch@[i] < t.size(),
            return_hit(t, m as int) == return_scan(t, m as int, k as int),
        decreases ch.len() - k,
    {
        let c = ch[k];
        if t.is_kind(c, "object") {
            return Some(c);
        }
        if t.is_kind(c, "as_expression") || t.is_kind(c, "satisfies_expression") {
            match t.child_of_kind(c, "object") {
                Some(o) => {
                    return Some(o);
                },
                None => {},
            }
        }
        k += 1;
    }
    None
}

/// `dfs_first` with `return_hit`.
fn dfs_return(t: &SyntaxTree, n: usize) -> (r: Option<usize>)
    requires
        n < t.size(),
    ensures
        opt_index(r) == dfs_first(t, n as int, return_hit_fn(t)),
        r matches Some(x) ==> x < t.size(),
    decreases t.size() - n,
{
    let ghost h = return_hit_fn(t);
    match return_hit_exec(t, n) {
        Some(x) => {
            return Some(x);
        },
        None => {},
    }
    let ch = t.children(n);
    let mut k: usize = 0;
    while k < ch.len()
        invariant
            k <= ch@.len(),
            n < t.size(),
            h == return_hit_fn(t),
            ch@ == t.children_of(n as int),
            forall|i: int| 0 <= i < ch@.len() ==> n < #[trigger] ch@[i] < t.size(),
            dfs_first(t, n as int, h) == dfs_children(t, n as int, k as int, h),
        decreases ch.len() - k,
    {
        match dfs_return(t, ch[k]) {
            Some(x) => {
                return Some(x);
            },
            None => {},
        }
        k += 1;
    }
    None
}

/// `define_args_scan` from the first child.
fn define_args_exec(t: &SyntaxTree, a: usize) -> (r: Option<usize>)
    requires
        a < t.size(),
    ensures
        opt_index(r) == define_args_scan(t, a as int, 0),
        r matches Some(x) ==> x < t.size(),
{
    let ch = t.children(a);
    let mut k: usize = 0;
    while k < ch.len()
        invariant
            k <= ch@.len(),
            ch@ == t.children_of(a as int),
            forall|i: int| 0 <= i < ch@.len() ==> #[trigger] ch@[i] < t.size(),
            define_args_scan(t, a as int, 0) == define_args_scan(t, a as int, k as int),
        decreases ch.len() - k,
    {
        let c = ch[k];
        if t.is_kind(c, "object") {
            return Some(c);
        }
        if t.is_kind(c, "arrow_function") || t.is_kind(c, "function") {
            return dfs_return(t, c);
        }
        k += 1;
    }
    None
}

/// `define_hit`.
fn define_hit_exec(t: &SyntaxTree, m: usize) -> (r: Option<usize>)
    requires
        m < t.size(),
    ensures
        opt_index(r) == define_hit(t, m as int),
        r matches Some(x) ==> x < t.size(),
{
    if !t.is_kind(m, "call_expression") {
        return None;
    }
    let f = match t.child_by_field(m, "function") {
        None => {
            return None;
        },
        Some(f) => f,
    };
    let is_define = match t.text_opt(f) {
        Some(ft) => crate::text::eq(&ft, &chars_of("defineConfig")),
        None => false,
    };
    if !is_define {
        return None;
    }
    match t.child_by_field(m, "arguments") {
        None => None,
        Some(a) => define_args_exec(t, a),
    }
}

/// `dfs_first` with `define_hit`.
fn dfs_define(t: &SyntaxTree, n: usize) -> (r: Option<usize>)
    requires
        n < t.size(),
    ensures
        opt_index(r) == dfs_first(t, n as int, define_hit_fn(t)),
        r matches Some(x) ==> x < t.size(),
    decreases t.size() - n,
{
    let ghost h = define_hit_fn(t);
    match define_hit_exec(t, n) {
        Some(x) => {
            return Some(x);
        },
        None => {},
    }
    let ch = t.children(n);
    let mut k: usize = 0;
    while k < ch.len()
        invariant
            k <= ch@.len(),
            n < t.size(),
            h == define_hit_fn(t),
            ch@ == t.children_of(n as int),
            forall|i: int| 0 <= i < ch@.len() ==> n < #[trigger] ch@[i] < t.size(),
            dfs_first(t, n as int, h) == dfs_children(t, n as int, k as int, h),
        decreases ch.len() - k,
    {
        match dfs_define(t, ch[k]) {
            Some(x) => {
                return Some(x);
            },
            None => {},
        }
        k += 1;
    }
    None
}

/// `exports_hit`.
fn exports_hit_exec(t: &SyntaxTree, m: usize) -> (r: Option<usize>)
    requires
        m < t.size(),
    ensures
        opt_index(r) == exports_hit(t, m as int),
        r matches Some(x) ==> x < t.size(),
{
    if !t.is_kind(m, "expression_statement") {
        return None;
    }
    let ch = t.children(m);
    if ch.len() == 0 {
        return None;
    }
    let e = ch[0];
    if !t.is_kind(e, "assignment_expression") {
        return None;
    }
    let l = match t.child_by_field(e, "left") {
        None => {
            return None;
        },
        Some(l) => l,
    };
    let is_exports = match t.text_opt(l) {
        Some(lt) => crate::text::eq(&lt, &chars_of("module.exports")),
        None => false,
    };
    if !is_exports {
        return None;
    }
    match t.child_by_field(e, "right") {
        Some(rn) => if t.is_kind(rn, "object") {
            Some(rn)
        } else {
            None
        },
        None => None,
    }
}

/// `dfs_first` with `exports_hit`.
fn dfs_exports(t: &SyntaxTree, n: usize) -> (r: Option<usize>)
    requires
        n < t.size(),
    ensures
        opt_index(r) == dfs_first(t, n as int, exports_hit_fn(t)),
        r matches Some(x) ==> x < t.size(),
    decreases t.size() - n,
{
    let ghost h = exports_hit_fn(t);
    match exports_hit_exec(t, n) {
        Some(x) => {
            return Some(x);
        },
        None => {},
    }
    let ch = t.children(n);
    let mut k: usize = 0;
    while k < ch.len()
        invariant
            k <= ch@.len(),
            n < t.size(),
            h == exports_hit_fn(t),
            ch@ == t.children_of(n as int),
            forall|i: int| 0 <= i < ch@.len() ==> n < #[trigger] ch@[i] < t.size(),
            dfs_first(t, n as int, h) == dfs_children(t, n as int, k as int, h),
        decreases ch.len() - k,
    {
        match dfs_exports(t, ch[k]) {
            Some(x) => {
                return Some(x);
            },
            None => {},
        }
        k += 1;
    }
    None
}

/// `export_stmt_scan` from the first child.
fn export_stmt_exec(t: &SyntaxTree, st: usize) -> (r: Option<usize>)
    requires
        st < t.size(),
    ensures
        opt_index(r) == export_stmt_scan(t, st as int, 0, false),
        r matches Some(x) ==> x < t.size(),
{
    let ch = t.children(st);
    let mut seen = false;
    let mut j: usize = 0;
    while j < ch.len()
        invariant
            j <= ch@.len(),
            ch@ == t.children_of(st as int),
            forall|i: int| 0 <= i < ch@.len() ==> #[trigger] ch@[i] < t.size(),
            export_stmt_scan(t, st as int, 0, false) == export_stmt_scan(t, st as int, j as int, seen),
        decreases ch.len() - j,
    {
        let g = ch[j];
        let is_default = match t.text_opt(g) {
            Some(gt) => crate::text::eq(&gt, &chars_of("default")),
            None => false,
        };
        seen = seen || is_default;
        if seen && t.is_kind(g, "object") {
            return Some(g);
        }
        if seen && t.is_kind(g, "satisfies_expression") {
            match t.child_of_kind(g, "object") {
                Some(o) => {
                    return Some(o);
                },
                None => {},
            }
        }
        j += 1;
    }
    None
}

/// `export_default_from` the first top-level statement.
fn export_default_exec(t: &SyntaxTree) -> (r: Option<usize>)
    ensures
        opt_index(r) == export_default_from(t, 0),
        r matches Some(x) ==> x < t.size(),
{
    let _ = t.len();
    let ch = t.children(0);
    let mut k: usize = 0;
    while k < ch.len()
        invariant
            k <= ch@.len(),
            ch@ == t.children_of(0),
            forall|i: int| 0 <= i < ch@.len() ==> #[trigger] ch@[i] < t.size(),
            export_default_from(t, 0) == export_default_from(t, k as int),
        decreases ch.len() - k,
    {
        let c = ch[k];
        if t.is_kind(c, "export_statement") {
            match export_stmt_exec(t, c) {
                Some(o) => {
                    return Some(o);
                },
                None => {},
            }
        }
        k += 1;
    }
    None
}

// ---------------------------------------------------------------------------
// Vite and Webpack configurations
// ---------------------------------------------------------------------------

/// The directory of a configuration file: its parent, or nothing.
pub open spec fn config_dir_of(p: Seq<char>) -> Seq<char> {
    match dir_parent_spec(p) {
        Some(d) => d,
        None => Seq::empty(),
    }
}

/// The Vite configuration object: the argument of the first
/// `defineConfig(...)`, else the `export default` object.
pub open spec fn vite_object(t: &SyntaxTree) -> Option<int> {
    match dfs_first(t, 0, define_hit_fn(t)) {
        Some(x) => Some(x),
        None => export_default_from(t, 0),
    }
}

/// The node of `resolve.alias` in a Vite configuration.
pub open spec fn vite_alias_node(t: &SyntaxTree) -> Option<int> {
    match vite_object(t) {
        None => None,
        Some(o) => match prop_object(t, o, "resolve"@) {
            None => None,
            Some(rs) => prop_value(t, rs, "alias"@),
        },
    }
}

/// The Webpack configuration object: the first `module.exports = { ... }`,
/// else the `export default` object.
pub open spec fn webpack_object(t: &SyntaxTree) -> Option<int> {
    match dfs_first(t, 0, exports_hit_fn(t)) {
        Some(x) => Some(x),
        None => export_default_from(t, 0),
    }
}

/// The `resolve` object of a Webpack configuration.
pub open spec fn webpack_resolve(t: &SyntaxTree) -> Option<int> {
    match webpack_object(t) {
        None => None,
        Some(o) => prop_object(t, o, "resolve"@),
    }
}

/// The alias items of a Webpack `resolve` object `rs`.
pub open spec fn webpack_items(t: &SyntaxTree, rs: int, dir: Seq<char>) -> Seq<AliasItem> {
    match prop_value(t, rs, "alias"@) {
        Some(a) => all_alias_items(t, a, dir),
        None => Seq::empty(),
    }
}

/// The `modules` entries of a Webpack `resolve` object `rs`.
pub open spec fn webpack_modules(t: &SyntaxTree, rs: int) -> Seq<Seq<char>> {
    match prop_value(t, rs, "modules"@) {
        Some(m) => string_array(t, m),
        None => Seq::empty(),
    }
}

/// The aliases of `c` are those the items give.
pub open spec fn aliases_match(c: &BundlerConfig, items: Seq<AliasItem>) -> bool {
    forall|k: Seq<char>| #[trigger] opt_view(c.aliases.spec_get(k)) == last_bound(items, k)
}

/// Every code is `W045DynamicAliasSkipped`.
pub open spec fn all_w045(s: Seq<WarningCode>) -> bool {
    forall|i: int| 0 <= i < s.len() ==> s[i] == WarningCode::W045DynamicAliasSkipped
}

/// Skipped entries are reported with `W045DynamicAliasSkipped` only.
pub proof fn lemma_skip_codes_w045(s: Seq<AliasItem>)
    ensures
        all_w045(skip_codes(s)),
    decreases s.len(),
{
    if s.len() > 0 {
        lemma_skip_codes_w045(s.drop_last());
    }
}

/// `config_dir_of`.
fn config_dir_exec(p: &Vec<char>) -> (r: Vec<char>)
    ensures
        r@ == config_dir_of(p@),
{
    match dir_parent(p) {
        Some(d) => d,
        None => Vec::new(),
    }
}

/// The path warnings about the file `config_path` carry.
fn warning_path(config_path: &str) -> (r: CanonicalPath)
    ensures
        r@ == crate::model::canon_spec(replace_char_spec(config_path@, '\\', '/')),
{
    let v = replace_char(&chars_of(config_path), '\\', '/');
    CanonicalPath::new(string_of(&v).as_str())
}

/// `vite_alias_node`.
fn vite_alias_node_exec(t: &SyntaxTree) -> (r: Option<usize>)
    ensures
        opt_index(r) == vite_alias_node(t),
        r matches Some(x) ==> x < t.size(),
{
    let _ = t.len();
    let obj = match dfs_define(t, 0) {
        Some(x) => Some(x),
        None => export_default_exec(t),
    };
    match obj {
        None => None,
        Some(o) => match prop_object_exec(t, o, "resolve") {
            None => None,
            Some(rs) => prop_value_exec(t, rs, "alias"),
        },
    }
}

/// `webpack_resolve`.
fn webpack_resolve_exec(t: &SyntaxTree) -> (r: Option<usize>)
    ensures
        opt_index(r) == webpack_resolve(t),
        r matches Some(x) ==> x < t.size(),
{
    let _ = t.len();
    let obj = match dfs_exports(t, 0) {
        Some(x) => Some(x),
        None => export_default_exec(t),
    };
    match obj {
        None => None,
        Some(o) => prop_object_exec(t, o, "resolve"),
    }
}

/// What the Vite configuration in `t` gives, read for the file at `path`:
/// nothing without an alias object; otherwise a configuration whose
/// aliases are those of every alias item, each item not understood
/// reported (`before` the warnings so far, `after` those afterwards).
pub open spec fn vite_result(t: &SyntaxTree, path: Seq<char>, r: Option<BundlerConfig>, before: Seq<WarningCode>, after: Seq<WarningCode>) -> bool {
    match vite_alias_node(t) {
        None => r is None && after == before,
        Some(a) => r matches Some(c) && c.config_dir@ == config_dir_of(path) && c.modules@.len() == 0
            && aliases_match(&c, all_alias_items(t, a, config_dir_of(path)))
            && after == before + skip_codes(all_alias_items(t, a, config_dir_of(path))),
    }
}

/// What the Webpack configuration in `t` gives, read for the file at
/// `path`: nothing without a `resolve` object or when it names neither an
/// alias nor a module directory; otherwise the aliases and module
/// directories it names; each alias item not understood reported either way.
pub open spec fn webpack_result(t: &SyntaxTree, path: Seq<char>, r: Option<BundlerConfig>, before: Seq<WarningCode>, after: Seq<WarningCode>) -> bool {
    match webpack_resolve(t) {
        None => r is None && after == before,
        Some(rs) => {
            let dir = config_dir_of(path);
            let items = webpack_items(t, rs, dir);
            let mods = webpack_modules(t, rs);
            &&& after == before + skip_codes(items)
            &&& if !has_bound(items) && mods.len() == 0 {
                r is None
            } else {
                r matches Some(c) && c.config_dir@ == dir && aliases_match(&c, items) && views_of_strings(c.modules@) == mods
            }
        },
    }
}

/// The Vite configuration a parsed `vite.config.*` holds: `None` without a
/// configuration object, a `resolve` object or an `alias` entry; otherwise
/// the aliases (see [`last_bound`]), each value not understood reported.
pub fn vite_config_from_tree(t: &SyntaxTree, config_path: &str, diag: &mut DiagnosticCollector) -> (r: Option<BundlerConfig>)
    ensures
        vite_result(t, config_path@, r, old(diag).codes(), final(diag).codes()),
{
    let dir = config_dir_exec(&chars_of(config_path));
    let a = match vite_alias_node_exec(t) {
        None => {
            return None;
        },
        Some(a) => a,
    };
    let path = warning_path(config_path);
    let aliases = extract_aliases(t, a, &dir, &path, diag);
    Some(BundlerConfig { config_dir: string_of(&dir), aliases, modules: Vec::new() })
}

/// The Webpack configuration a parsed `webpack.config.*` holds: `None`
/// without a configuration object or a `resolve` object, or when it names
/// neither an alias nor a module directory; aliases not understood are
/// reported either way.
pub fn webpack_config_from_tree(t: &SyntaxTree, config_path: &str, diag: &mut DiagnosticCollector) -> (r: Option<BundlerConfig>)
    ensures
        webpack_result(t, config_path@, r, old(diag).codes(), final(diag).codes()),
{
    let dir = config_dir_exec(&chars_of(config_path));
    let rs = match webpack_resolve_exec(t) {
        None => {
            return None;
        },
        Some(rs) => rs,
    };
    let path = warning_path(config_path);
    let aliases = match prop_value_exec(t, rs, "alias") {
        Some(a) => extract_aliases(t, a, &dir, &path, diag),
        None => {
            let m: TextMap<String> = TextMap::new();
            proof {
                assert(forall|k: Seq<char>| #[trigger] opt_view(m.spec_get(k)) == last_bound(Seq::<AliasItem>::empty(), k));
                assert(diag.codes() == diag.codes() + skip_codes(Seq::<AliasItem>::empty()));
            }
            m
        },
    };
    let modules = match prop_value_exec(t, rs, "modules") {
        Some(m) => string_array_exec(t, m),
        None => {
            let v: Vec<String> = Vec::new();
            assert(views_of_strings(v@) =~= Seq::<Seq<char>>::empty());
            v
        },
    };
    if aliases.is_empty() && modules.len() == 0 {
        return None;
    }
    Some(BundlerConfig { config_dir: string_of(&dir), aliases, modules })
}

/// Parse `vite.config.{ts,js,mjs}` and read its `resolve.alias` entries
/// (see [`vite_config_from_tree`]); `None` when the source cannot be parsed.
pub fn parse_vite_config(source: &[u8], config_path: &str, diag: &mut DiagnosticCollector) -> (r: Option<BundlerConfig>)
    ensures
        !parses(Grammar::TypeScript, source@) ==> r is None && final(diag).codes() == old(diag).codes(),
        parses(Grammar::TypeScript, source@) ==> exists|t: SyntaxTree|
            #[trigger] parsed_as(Grammar::TypeScript, source@, t)
                && vite_result(&t, config_path@, r, old(diag).codes(), final(diag).codes()),
        r matches Some(c) ==> c.config_dir@ == config_dir_of(config_path@) && c.modules@.len() == 0,
        old(diag).codes().is_prefix_of(final(diag).codes()),
        all_w045(final(diag).codes().skip(old(diag).codes().len() as int)),
{
    let ghost c0 = diag.codes();
    let r = match parse(Grammar::TypeScript, source) {
        Some(t) => {
            let r = vite_config_from_tree(&t, config_path, diag);
            assert(parsed_as(Grammar::TypeScript, source@, t) && vite_result(&t, config_path@, r, c0, diag.codes()));
            proof {
                match vite_alias_node(&t) {
                    Some(a) => lemma_skip_codes_w045(all_alias_items(&t, a, config_dir_of(config_path@))),
                    None => {},
                }
            }
            r
        },
        None => None,
    };
    assert(c0.is_prefix_of(diag.codes()));
    r
}

/// Parse `webpack.config.{js,ts}` and read its `resolve.alias` and
/// `resolve.modules` entries (see [`webpack_config_from_tree`]); `None`
/// when the source cannot be parsed.
pub fn parse_webpack_config(source: &[u8], config_path: &str, diag: &mut DiagnosticCollector) -> (r: Option<BundlerConfig>)
    ensures
        !parses(Grammar::TypeScript, source@) ==> r is None && final(diag).codes() == old(diag).codes(),
        parses(Grammar::TypeScript, source@) ==> exists|t: SyntaxTree|
            #[trigger] parsed_as(Grammar::TypeScript, source@, t)
                && webpack_result(&t, config_path@, r, old(diag).codes(), final(diag).codes()),
        r matches Some(c) ==> c.config_dir@ == config_dir_of(config_path@),
        old(diag).codes().is_prefix_of(final(diag).codes()),
        all_w045(final(diag).codes().skip(old(diag).codes().len() as int)),
{
    let ghost c0 = diag.codes();
    let r = match parse(Grammar::TypeScript, source) {
        Some(t) => {
            let r = webpack_config_from_tree(&t, config_path, diag);
            assert(parsed_as(Grammar::TypeScript, source@, t) && webpack_result(&t, config_path@, r, c0, diag.codes()));
            proof {
                match webpack_resolve(&t) {
                    Some(rs) => lemma_skip_codes_w045(webpack_items(&t, rs, config_dir_of(config_path@))),
                    None => {},
                }
            }
            r
        },
        None => None,
    };
    assert(c0.is_prefix_of(diag.codes()));
    r
}

} // verus!
