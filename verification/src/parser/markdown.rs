//! Markdown: relative links between documents.
use vstd::prelude::*;
use crate::model::{canon_spec, sorted_set, sorted_unique, CanonicalPath, FileSet, WorkspaceInfo};
use crate::parser::traits::{imports_view, ImportKind, ImportResolver, ImportView, RawExport, RawImport};
use crate::syntax::SyntaxTree;
use crate::text::{before_char, before_first, chars_of, join, starts_with, trim, trim_spec, join_spec, rfind_char, rfind_char_spec, slice, split_char, split_spec, string_of, views};

verus! {

/// Apply one segment: `.` and empty segments vanish (an empty first segment
/// of a path starting with `/` is kept for the root), `..` cancels the
/// segment before it unless that is `..` or the root.
pub open spec fn md_push(parts: Seq<Seq<char>>, seg: Seq<char>, absolute: bool) -> Seq<Seq<char>> {
    if seg == "."@ || seg.len() == 0 {
        if parts.len() == 0 && seg.len() == 0 && absolute {
            parts.push(seg)
        } else {
            parts
        }
    } else if seg == ".."@ {
        if parts.len() > 0 && parts.last() != ".."@ && parts.last().len() > 0 {
            parts.drop_last()
        } else {
            parts.push(".."@)
        }
    } else {
        parts.push(seg)
    }
}

/// The segments left after applying `segs` in order.
pub open spec fn md_segments(segs: Seq<Seq<char>>, absolute: bool) -> Seq<Seq<char>>
    decreases segs.len(),
{
    if segs.len() == 0 {
        Seq::empty()
    } else {
        md_push(md_segments(segs.drop_last(), absolute), segs.last(), absolute)
    }
}

/// A path with `.` and `..` segments resolved lexically; `.` when nothing is left.
pub open spec fn md_normalize_spec(path: Seq<char>) -> Seq<char> {
    let parts = md_segments(split_spec(path, '/'), path.len() > 0 && path[0] == '/');
    if parts.len() == 0 {
        "."@
    } else {
        join_spec(parts, '/')
    }
}

/// Resolve `.` and `..` segments of a path.
pub fn normalize_path(path: &str) -> (r: String)
    ensures
        r@ == md_normalize_spec(path@),
{
    let p = chars_of(path);
    let absolute = p.len() > 0 && p[0] == '/';
    let segs = split_char(&p, '/');
    let ghost ss = views(segs@);
    let dot = chars_of(".");
    let dotdot = chars_of("..");
    let mut parts: Vec<Vec<char>> = Vec::new();
    let mut i: usize = 0;
    while i < segs.len()
        invariant
            0 <= i <= segs@.len(),
            ss == views(segs@),
            ss == split_spec(p@, '/'),
            absolute == (p@.len() > 0 && p@[0] == '/'),
            dot@ == "."@,
            dotdot@ == ".."@,
            views(parts@) == md_segments(ss.take(i as int), absolute),
        decreases segs.len() - i,
    {
        proof {
            assert(ss.take(i + 1).drop_last() =~= ss.take(i as int));
            assert(ss.take(i + 1).last() == segs@[i as int]@);
        }
        let s = &segs[i];
        let ghost before = views(parts@);
        if crate::text::eq(s, &dot) || s.len() == 0 {
            if parts.len() == 0 && s.len() == 0 && absolute {
                let empty: Vec<char> = Vec::new();
                assert(empty@ =~= s@);
                parts.push(empty);
                assert(views(parts@) =~= before.push(s@));
            }
        } else if crate::text::eq(s, &dotdot) {
            let pop = parts.len() > 0 && !crate::text::eq(&parts[parts.len() - 1], &dotdot) && parts[parts.len() - 1].len() > 0;
            if pop {
                parts.pop();
                assert(views(parts@) =~= before.drop_last());
            } else {
                parts.push(chars_of(".."));
                assert(views(parts@) =~= before.push(".."@));
            }
        } else {
            parts.push(slice(s, 0, s.len()));
            assert(s@.subrange(0, s@.len() as int) =~= s@);
            assert(views(parts@) =~= before.push(s@));
        }
        i += 1;
    }
    assert(ss.take(ss.len() as int) =~= ss);
    if parts.len() == 0 {
        string_of(&chars_of("."))
    } else {
        string_of(&join(&parts, '/'))
    }
}

/// The directory of a file as the link resolver takes it: the text before
/// the last `/`, or nothing.
pub open spec fn md_parent(from: Seq<char>) -> Seq<char> {
    match rfind_char_spec(from, '/') {
        Some(i) => from.take(i),
        None => Seq::empty(),
    }
}

/// The file a link from `from` names, if it is known.
pub open spec fn md_resolve_spec(link: Seq<char>, from: Seq<char>, files: Seq<Seq<char>>) -> Option<Seq<char>> {
    let parent = md_parent(from);
    let joined = if parent.len() == 0 {
        link
    } else {
        parent + "/"@ + link
    };
    let cand = canon_spec(md_normalize_spec(joined));
    if files.contains(cand) {
        Some(cand)
    } else {
        None
    }
}

/// Resolver of Markdown links to known files.
#[derive(Debug)]
pub struct MarkdownResolver;

impl ImportResolver for MarkdownResolver {
    fn resolve(
        &self,
        import: &RawImport,
        from_file: &CanonicalPath,
        known_files: &FileSet,
        _workspace: Option<&WorkspaceInfo>,
    ) -> (r: Option<CanonicalPath>)
        ensures
            match r {
                Some(p) => md_resolve_spec(import.path@, from_file@, known_files@) == Some(p@),
                None => md_resolve_spec(import.path@, from_file@, known_files@) is None,
            },
    {
        let link = chars_of(import.path.as_str());
        let from = from_file.chars();
        let parent = match rfind_char(&from, '/') {
            Some(i) => slice(&from, 0, i),
            None => Vec::new(),
        };
        let joined = if parent.len() == 0 {
            link
        } else {
            let mut v = slice(&parent, 0, parent.len());
            v.push('/');
            crate::text::push_all(&mut v, &link);
            proof {
                reveal_strlit("/");
                assert(parent@.subrange(0, parent@.len() as int) =~= parent@);
                assert(v@ =~= parent@ + "/"@ + link@);
            }
            v
        };
        let normalized = normalize_path(string_of(&joined).as_str());
        let candidate = CanonicalPath::new(normalized.as_str());
        if known_files.contains(&candidate) {
            Some(candidate)
        } else {
            None
        }
    }
}

// ---------------------------------------------------------------------------
// Links
// ---------------------------------------------------------------------------

/// A link destination as an import path: trimmed; nothing when empty, a
/// fragment only (`#...`), or a URL (`http://`, `https://`, `ftp://`,
/// `mailto:`, `data:`); angle brackets removed; the fragment and the query
/// string cut off; nothing when that leaves nothing.
pub open spec fn clean_link_spec(raw: Seq<char>) -> Option<Seq<char>> {
    let t = trim_spec(raw);
    if t.len() == 0 || t[0] == '#' || "http://"@.is_prefix_of(t) || "https://"@.is_prefix_of(t)
        || "ftp://"@.is_prefix_of(t) || "mailto:"@.is_prefix_of(t) || "data:"@.is_prefix_of(t) {
        None
    } else {
        let p = if t[0] == '<' && t.last() == '>' {
            t.subrange(1, t.len() - 1)
        } else {
            t
        };
        let q = before_char(before_char(p, '#'), '?');
        if q.len() == 0 {
            None
        } else {
            Some(q)
        }
    }
}

/// `clean_link_spec`.
pub fn clean_link(raw: &Vec<char>) -> (r: Option<Vec<char>>)
    ensures
        match r {
            Some(v) => clean_link_spec(raw@) == Some(v@),
            None => clean_link_spec(raw@) is None,
        },
{
    let t = trim(raw);
    if t.len() == 0 || t[0] == '#' || starts_with(&t, &chars_of("http://")) || starts_with(&t, &chars_of("https://"))
        || starts_with(&t, &chars_of("ftp://")) || starts_with(&t, &chars_of("mailto:")) || starts_with(
        &t,
        &chars_of("data:"),
    ) {
        return None;
    }
    let p = if t[0] == '<' && t[t.len() - 1] == '>' {
        slice(&t, 1, t.len() - 1)
    } else {
        t
    };
    let q = before_first(&before_first(&p, '#'), '?');
    if q.len() == 0 {
        None
    } else {
        Some(q)
    }
}

/// Scanning from `j` with `depth` parentheses open: the position of the `)`
/// that closes them all, unless a line ends first.
pub open spec fn closing_paren(s: Seq<char>, j: int, depth: int) -> Option<int>
    decreases s.len() - j,
{
    if j < 0 || j >= s.len() {
        None
    } else if s[j] == '(' {
        closing_paren(s, j + 1, depth + 1)
    } else if s[j] == ')' {
        if depth - 1 == 0 {
            Some(j)
        } else {
            closing_paren(s, j + 1, depth - 1)
        }
    } else if s[j] == '\n' {
        None
    } else {
        closing_paren(s, j + 1, depth)
    }
}

/// The destinations of `[text](url)` and `![alt](url)` in `s` from `i` on,
/// cleaned (see [`clean_link_spec`]).
pub open spec fn inline_links_from(s: Seq<char>, i: int) -> Seq<Seq<char>>
    decreases s.len() - i,
{
    if i < 0 || i >= s.len() {
        Seq::empty()
    } else if i + 1 < s.len() && s[i] == ']' && s[i + 1] == '(' {
        match closing_paren(s, i + 2, 1) {
            Some(end) => if i + 2 <= end < s.len() {
                (match clean_link_spec(trim_spec(s.subrange(i + 2, end))) {
                    Some(c) => seq![c],
                    None => Seq::empty(),
                }) + inline_links_from(s, end + 1)
            } else {
                Seq::empty()
            },
            None => inline_links_from(s, i + 1),
        }
    } else {
        inline_links_from(s, i + 1)
    }
}

/// `closing_paren`, with where it ends.
proof fn lemma_closing_paren_range(s: Seq<char>, j: int, depth: int)
    ensures
        closing_paren(s, j, depth) matches Some(e) ==> j <= e < s.len(),
    decreases s.len() - j,
{
    if 0 <= j < s.len() {
        lemma_closing_paren_range(s, j + 1, depth + 1);
        lemma_closing_paren_range(s, j + 1, depth - 1);
        lemma_closing_paren_range(s, j + 1, depth);
    }
}

/// `closing_paren` from `start` with one parenthesis open.
fn find_closing_paren(s: &Vec<char>, start: usize) -> (r: Option<usize>)
    ensures
        match r {
            Some(e) => closing_paren(s@, start as int, 1) == Some(e as int),
            None => closing_paren(s@, start as int, 1) is None,
        },
{
    let mut extra: usize = 0;
    let mut j = start;
    while j < s.len()
        invariant
            start <= j,
            extra <= j - start,
            closing_paren(s@, start as int, 1) == closing_paren(s@, j as int, extra + 1),
        decreases s.len() - j,
    {
        let c = s[j];
        if c == '(' {
            extra += 1;
        } else if c == ')' {
            if extra == 0 {
                return Some(j);
            }
            extra -= 1;
        } else if c == '\n' {
            return None;
        }
        j += 1;
    }
    None
}

/// Push the cleaned inline link destinations of `s`.
fn push_inline_links(s: &Vec<char>, out: &mut Vec<Vec<char>>)
    ensures
        views(final(out)@) == views(old(out)@) + inline_links_from(s@, 0),
{
    let ghost before = views(out@);
    let mut i: usize = 0;
    while i < s.len()
        invariant
            i <= s.len(),
            views(out@) + inline_links_from(s@, i as int) == before + inline_links_from(s@, 0),
        decreases s.len() - i,
    {
        if i + 1 < s.len() && s[i] == ']' && s[i + 1] == '(' {
            match find_closing_paren(s, i + 2) {
                Some(end) => {
                    proof {
                        lemma_closing_paren_range(s@, i + 2, 1);
                    }
                    let ghost o0 = views(out@);
                    let url = trim(&slice(s, i + 2, end));
                    match clean_link(&url) {
                        Some(c) => {
                            out.push(c);
                            assert(views(out@) =~= o0.push(c@));
                            assert(views(out@) + inline_links_from(s@, end + 1) =~= o0 + inline_links_from(s@, i as int));
                        },
                        None => {
                            assert(views(out@) + inline_links_from(s@, end + 1) =~= o0 + inline_links_from(s@, i as int));
                        },
                    }
                    i = end + 1;
                    continue;
                },
                None => {},
            }
        }
        i += 1;
    }
    assert(views(out@) =~= before + inline_links_from(s@, 0));
}

/// The cleaned link destinations among the first `k` children of a link
/// reference definition `n`.
pub open spec fn ref_links(t: &SyntaxTree, n: int, k: int) -> Seq<Seq<char>>
    decreases k,
{
    let ch = t.children_of(n);
    if k <= 0 || k > ch.len() {
        Seq::empty()
    } else {
        ref_links(t, n, k - 1) + if t.kind_of(ch[k - 1] as int) == "link_destination"@ {
            match clean_link_spec(t.text_at(ch[k - 1] as int)) {
                Some(c) => seq![c],
                None => Seq::empty(),
            }
        } else {
            Seq::empty()
        }
    }
}

/// The links node `n` itself holds: the destinations of a link reference
/// definition, and the inline links of an inline node's text.
pub open spec fn own_links(t: &SyntaxTree, n: int) -> Seq<Seq<char>> {
    (if t.kind_of(n) == "link_reference_definition"@ {
        ref_links(t, n, t.children_of(n).len() as int)
    } else {
        Seq::empty()
    }) + (if t.kind_of(n) == "inline"@ {
        inline_links_from(t.text_at(n), 0)
    } else {
        Seq::empty()
    })
}

/// The links of the subtree of `n`, in preorder.
pub open spec fn md_links(t: &SyntaxTree, n: int) -> Seq<Seq<char>>
    decreases t.size() - n, t.children_of(n).len() + 1,
{
    own_links(t, n) + md_child_links(t, n, t.children_of(n).len() as int)
}

/// The links of the subtrees of the first `k` children of `n`.
pub open spec fn md_child_links(t: &SyntaxTree, n: int, k: int) -> Seq<Seq<char>>
    decreases t.size() - n, k,
{
    let ch = t.children_of(n);
    if k <= 0 || k > ch.len() {
        Seq::empty()
    } else {
        md_child_links(t, n, k - 1) + if n < ch[k - 1] < t.size() {
            md_links(t, ch[k - 1] as int)
        } else {
            Seq::empty()
        }
    }
}

/// The imports of a Markdown document: each distinct link, in text order.
pub open spec fn md_imports_spec(t: &SyntaxTree) -> Seq<ImportView> {
    sorted_set(md_links(t, 0)).map_values(
        |p: Seq<char>| ImportView { path: p, symbols: Seq::empty(), is_type_only: false, kind: ImportKind::Link },
    )
}

/// Push the links node `n` itself holds.
fn push_own_links(t: &SyntaxTree, n: usize, out: &mut Vec<Vec<char>>)
    requires
        n < t.size(),
    ensures
        views(final(out)@) == views(old(out)@) + own_links(t, n as int),
{
    let ghost before = views(out@);
    if t.is_kind(n, "link_reference_definition") {
        let ch = t.children(n);
        let mut k: usize = 0;
        while k < ch.len()
            invariant
                k <= ch@.len(),
                ch@ == t.children_of(n as int),
                forall|m: int| 0 <= m < ch@.len() ==> #[trigger] ch@[m] < t.size(),
                views(out@) == before + ref_links(t, n as int, k as int),
            decreases ch.len() - k,
        {
            let c = ch[k];
            let ghost o0 = views(out@);
            if t.is_kind(c, "link_destination") {
                match clean_link(&t.text_chars(c)) {
                    Some(l) => {
                        out.push(l);
                        assert(views(out@) =~= o0.push(l@));
                    },
                    None => {},
                }
            }
            assert(views(out@) =~= before + ref_links(t, n as int, k + 1));
            k += 1;
        }
    }
    let ghost mid = views(out@);
    if t.is_kind(n, "inline") {
        push_inline_links(&t.text_chars(n), out);
    }
    assert(views(out@) =~= before + own_links(t, n as int));
}

/// Push the links of the subtree of `n`, in preorder.
fn push_md_links(t: &SyntaxTree, n: usize, out: &mut Vec<Vec<char>>)
    requires
        n < t.size(),
    ensures
        views(final(out)@) == views(old(out)@) + md_links(t, n as int),
    decreases t.size() - n,
{
    let ghost before = views(out@);
    push_own_links(t, n, out);
    let ghost mid = views(out@);
    let ch = t.children(n);
    let mut k: usize = 0;
    while k < ch.len()
        invariant
            k <= ch@.len(),
            n < t.size(),
            ch@ == t.children_of(n as int),
            forall|m: int| 0 <= m < ch@.len() ==> n < #[trigger] ch@[m] < t.size(),
            views(out@) == mid + md_child_links(t, n as int, k as int),
        decreases ch.len() - k,
    {
        push_md_links(t, ch[k], out);
        assert(views(out@) =~= mid + md_child_links(t, n as int, k + 1));
        k += 1;
    }
    assert(views(out@) =~= before + md_links(t, n as int));
}

/// Parser of Markdown documents (`.md`): their relative links.
#[derive(Debug)]
pub struct MarkdownParser;

impl MarkdownParser {
    /// The parser.
    pub fn new() -> MarkdownParser {
        MarkdownParser
    }

    /// The language name.
    pub fn language(&self) -> (r: &'static str)
        ensures
            r@ == "markdown"@,
    {
        "markdown"
    }

    /// The file extensions handled.
    pub fn extensions(&self) -> (r: Vec<&'static str>)
        ensures
            r@.len() == 1,
            r@[0]@ == "md"@,
    {
        let mut v: Vec<&'static str> = Vec::new();
        v.push("md");
        v
    }

    /// The links of a document, each once, in text order, as link imports.
    pub fn extract_imports(&self, t: &SyntaxTree) -> (r: Vec<RawImport>)
        ensures
            imports_view(r@) == md_imports_spec(t),
    {
        let mut links: Vec<Vec<char>> = Vec::new();
        let _ = t.len();
        push_md_links(t, 0, &mut links);
        assert(views(links@) =~= md_links(t, 0));
        let paths = sorted_unique(&links);
        let ghost pv = paths@.map_values(|s: String| s@);
        let mut out: Vec<RawImport> = Vec::new();
        let mut i: usize = 0;
        while i < paths.len()
            invariant
                i <= paths@.len(),
                pv == paths@.map_values(|s: String| s@),
                pv == sorted_set(md_links(t, 0)),
                pv.len() == paths@.len(),
                out@.len() == i,
                imports_view(out@) == md_imports_spec(t).take(i as int),
            decreases paths.len() - i,
        {
            let ghost o0 = imports_view(out@);
            let p = string_of(&chars_of(paths[i].as_str()));
            assert(pv[i as int] == p@);
            out.push(RawImport { path: p, symbols: Vec::new(), is_type_only: false, kind: ImportKind::Link });
            assert(out@[i as int]@.symbols =~= Seq::<Seq<char>>::empty());
            assert(out@[i as int]@ == md_imports_spec(t)[i as int]);
            assert(imports_view(out@) =~= o0.push(md_imports_spec(t)[i as int]));
            assert(imports_view(out@) =~= md_imports_spec(t).take(i + 1));
            i += 1;
        }
        assert(md_imports_spec(t).take(paths@.len() as int) =~= md_imports_spec(t));
        out
    }

    /// Documents export nothing.
    pub fn extract_exports(&self, t: &SyntaxTree) -> (r: Vec<RawExport>)
        ensures
            r@.len() == 0,
    {
        Vec::new()
    }
}

} // verus!
