//! Rust: `use` and `mod` declarations, public items, and module resolution.
use vstd::prelude::*;
use crate::model::{canon_spec, file_name_spec, CanonicalPath, FileSet, WorkspaceInfo};
use crate::parser::python::drop_n;
use crate::parser::traits::{exports_view, imports_view, strings_view, ExportView, ImportKind, ImportResolver, ImportView, RawExport, RawImport};
use crate::parser::typescript::{first_known, first_known_files, from_dir};
use crate::syntax::{first_child_of_kind, first_some, flat_map, lemma_first_some_step, lemma_flat_map_step, SyntaxTree};
use crate::text::{chars_of, join, join_spec, join_strings, join_with, rfind_char, rfind_char_spec, slice, split_char, split_spec, split_str, split_str_spec, string_of, views};

verus! {

// ---------------------------------------------------------------------------
// Paths of `use` declarations
// ---------------------------------------------------------------------------

/// The text of node `n` as one segment, if it has text.
pub open spec fn text_seg(t: &SyntaxTree, n: int) -> Seq<Seq<char>> {
    match t.text_opt_at(n) {
        Some(s) => seq![s],
        None => Seq::empty(),
    }
}

/// The left part of a scoped identifier: its first scoped identifier,
/// `crate`, `super`, `self` or identifier child, in that preference.
pub open spec fn scope_path(t: &SyntaxTree, n: int) -> Option<usize> {
    match first_child_of_kind(t, n, "scoped_identifier"@) {
        Some(p) => Some(p),
        None => match first_child_of_kind(t, n, "crate"@) {
            Some(p) => Some(p),
            None => match first_child_of_kind(t, n, "super"@) {
                Some(p) => Some(p),
                None => match first_child_of_kind(t, n, "self"@) {
                    Some(p) => Some(p),
                    None => first_child_of_kind(t, n, "identifier"@),
                },
            },
        },
    }
}

/// The segments of a path node: a scoped identifier gives the segments of
/// its left part and then its last child when that is an identifier; an
/// identifier gives its text; `crate`, `super` and `self` give themselves;
/// any other node its whole text.
pub open spec fn path_segments(t: &SyntaxTree, n: int) -> Seq<Seq<char>>
    decreases t.size() - n,
{
    let k = t.kind_of(n);
    if k == "scoped_identifier"@ || k == "scoped_type_identifier"@ {
        let left = match scope_path(t, n) {
            Some(p) => if n < p < t.size() {
                path_segments(t, p as int)
            } else {
                Seq::empty()
            },
            None => Seq::empty(),
        };
        let ch = t.children_of(n);
        let right = if ch.len() > 0 && (t.kind_of(ch.last() as int) == "identifier"@ || t.kind_of(ch.last() as int)
            == "type_identifier"@) {
            text_seg(t, ch.last() as int)
        } else {
            Seq::empty()
        };
        left + right
    } else if k == "identifier"@ || k == "type_identifier"@ {
        text_seg(t, n)
    } else if k == "crate"@ {
        seq!["crate"@]
    } else if k == "super"@ {
        seq!["super"@]
    } else if k == "self"@ {
        seq!["self"@]
    } else {
        text_seg(t, n)
    }
}

/// A path of a `use` declaration and the names it brings in.
pub type UseEntry = (Seq<Seq<char>>, Seq<Seq<char>>);

/// The last segment, or the empty text when there is none.
pub open spec fn last_or_empty(s: Seq<Seq<char>>) -> Seq<char> {
    if s.len() > 0 {
        s.last()
    } else {
        Seq::empty()
    }
}

/// The entry of a path that names itself, when it has segments.
pub open spec fn self_entry(segs: Seq<Seq<char>>) -> Seq<UseEntry> {
    if segs.len() > 0 {
        seq![(segs, seq![segs.last()])]
    } else {
        Seq::empty()
    }
}

/// The entries of the children `ch` of a scoped use list `n`, below
/// `prefix`: path children extend the prefix for what follows, a use list
/// gives the entries of its items.
pub open spec fn scoped_entries(t: &SyntaxTree, n: int, ch: Seq<usize>, prefix: Seq<Seq<char>>) -> Seq<UseEntry>
    decreases t.size() - n, ch.len(),
{
    if ch.len() == 0 {
        Seq::empty()
    } else {
        let c = ch[0] as int;
        let k = t.kind_of(c);
        if k == "scoped_identifier"@ || k == "identifier"@ || k == "crate"@ || k == "super"@ || k == "self"@ {
            scoped_entries(t, n, ch.drop_first(), prefix + path_segments(t, c))
        } else if k == "use_list"@ {
            (if n < c < t.size() {
                list_entries(t, c, t.children_of(c), prefix)
            } else {
                Seq::empty()
            }) + scoped_entries(t, n, ch.drop_first(), prefix)
        } else {
            scoped_entries(t, n, ch.drop_first(), prefix)
        }
    }
}

/// The entries of the items `items` of use list `l`, below `prefix`.
pub open spec fn list_entries(t: &SyntaxTree, l: int, items: Seq<usize>, prefix: Seq<Seq<char>>) -> Seq<UseEntry>
    decreases t.size() - l, items.len(),
{
    if items.len() == 0 {
        Seq::empty()
    } else {
        let i = items[0] as int;
        let k = t.kind_of(i);
        let here = if k == "identifier"@ || k == "type_identifier"@ {
            match t.text_opt_at(i) {
                Some(name) => seq![(prefix.push(name), seq![name])],
                None => Seq::empty(),
            }
        } else if k == "scoped_identifier"@ {
            let sub = path_segments(t, i);
            seq![(prefix + sub, seq![last_or_empty(sub)])]
        } else if k == "scoped_use_list"@ {
            if l < i < t.size() {
                scoped_entries(t, i, t.children_of(i), prefix)
            } else {
                Seq::empty()
            }
        } else if k == "self"@ {
            seq![(prefix, seq![last_or_empty(prefix)])]
        } else if k == "use_as_clause"@ {
            let o = match first_child_of_kind(t, i, "identifier"@) {
                Some(x) => Some(x),
                None => first_child_of_kind(t, i, "scoped_identifier"@),
            };
            match o {
                Some(x) => {
                    let sub = path_segments(t, x as int);
                    seq![(prefix + sub, seq![last_or_empty(sub)])]
                },
                None => Seq::empty(),
            }
        } else {
            Seq::empty()
        };
        here + list_entries(t, l, items.drop_first(), prefix)
    }
}

/// The entry of one item of a top-level use list.
pub open spec fn top_list_item_f(t: &SyntaxTree) -> spec_fn(usize) -> Seq<UseEntry> {
    |i: usize| {
        let k = t.kind_of(i as int);
        if k == "identifier"@ || k == "type_identifier"@ {
            match t.text_opt_at(i as int) {
                Some(name) => seq![(seq![name], seq![name])],
                None => Seq::empty(),
            }
        } else if k == "scoped_identifier"@ {
            self_entry(path_segments(t, i as int))
        } else if k == "use_as_clause"@ {
            match first_child_of_kind(t, i as int, "identifier"@) {
                Some(o) => self_entry(path_segments(t, o as int)),
                None => Seq::empty(),
            }
        } else if k == "self"@ {
            seq![(seq!["self"@], seq!["self"@])]
        } else {
            Seq::empty()
        }
    }
}

/// The path node of a wildcard use.
pub open spec fn wildcard_path(t: &SyntaxTree, c: int) -> Option<usize> {
    match first_child_of_kind(t, c, "scoped_identifier"@) {
        Some(p) => Some(p),
        None => match first_child_of_kind(t, c, "identifier"@) {
            Some(p) => Some(p),
            None => first_child_of_kind(t, c, "crate"@),
        },
    }
}

/// The entries of one child of a `use` declaration.
pub open spec fn use_child_f(t: &SyntaxTree) -> spec_fn(usize) -> Seq<UseEntry> {
    |c: usize| {
        let k = t.kind_of(c as int);
        if k == "use_as_clause"@ || k == "scoped_identifier"@ || k == "identifier"@ {
            self_entry(path_segments(t, c as int))
        } else if k == "use_list"@ {
            flat_map(t.children_of(c as int), top_list_item_f(t))
        } else if k == "scoped_use_list"@ {
            scoped_entries(t, c as int, t.children_of(c as int), Seq::empty())
        } else if k == "use_wildcard"@ {
            match wildcard_path(t, c as int) {
                Some(p) => seq![(path_segments(t, p as int), seq!["*"@])],
                None => Seq::empty(),
            }
        } else {
            Seq::empty()
        }
    }
}

/// The paths a `use` declaration names, each with the names it brings in.
pub open spec fn use_paths(t: &SyntaxTree, n: int) -> Seq<UseEntry> {
    flat_map(t.children_of(n), use_child_f(t))
}

/// The views of use entries.
pub open spec fn entries_view(v: Seq<(Vec<String>, Vec<String>)>) -> Seq<UseEntry> {
    v.map_values(|e: (Vec<String>, Vec<String>)| (strings_view(e.0@), strings_view(e.1@)))
}

/// Push the segments of path node `n`.
#[verifier::spinoff_prover]
#[verifier::rlimit(30)]
fn push_segments(t: &SyntaxTree, n: usize, out: &mut Vec<String>)
    requires
        n < t.size(),
    ensures
        strings_view(final(out)@) == strings_view(old(out)@) + path_segments(t, n as int),
    decreases t.size() - n,
{
    let ghost before = strings_view(out@);
    proof {
        reveal_strlit("crate");
        reveal_strlit("super");
        reveal_strlit("self");
    }
    if t.is_kind(n, "scoped_identifier") || t.is_kind(n, "scoped_type_identifier") {
        let p = match t.child_of_kind(n, "scoped_identifier") {
            Some(p) => Some(p),
            None => match t.child_of_kind(n, "crate") {
                Some(p) => Some(p),
                None => match t.child_of_kind(n, "super") {
                    Some(p) => Some(p),
                    None => match t.child_of_kind(n, "self") {
                        Some(p) => Some(p),
                        None => t.child_of_kind(n, "identifier"),
                    },
                },
            },
        };
        assert(p == scope_path(t, n as int));
        let ghost left = match scope_path(t, n as int) {
            Some(q) => if n < q < t.size() {
                path_segments(t, q as int)
            } else {
                Seq::empty()
            },
            None => Seq::empty(),
        };
        match p {
            Some(q) => push_segments(t, q, out),
            None => {},
        }
        let ghost mid = strings_view(out@);
        assert(mid =~= before + left);
        let ch = t.children(n);
        if ch.len() > 0 {
            let last = ch[ch.len() - 1];
            assert(last == ch@.last());
            if t.is_kind(last, "identifier") || t.is_kind(last, "type_identifier") {
                match t.text_opt(last) {
                    Some(v) => out.push(string_of(&v)),
                    None => {},
                }
            }
        }
        let ghost right = if ch@.len() > 0 && (t.kind_of(ch@.last() as int) == "identifier"@ || t.kind_of(ch@.last() as int)
            == "type_identifier"@) {
            text_seg(t, ch@.last() as int)
        } else {
            Seq::empty()
        };
        assert(strings_view(out@) =~= mid + right);
        assert(path_segments(t, n as int) == left + right);
        assert(strings_view(out@) =~= before + path_segments(t, n as int));
    } else if t.is_kind(n, "identifier") || t.is_kind(n, "type_identifier") {
        match t.text_opt(n) {
            Some(v) => out.push(string_of(&v)),
            None => {},
        }
        assert(strings_view(out@) =~= before + path_segments(t, n as int));
    } else if t.is_kind(n, "crate") {
        out.push(string_of(&chars_of("crate")));
        assert(strings_view(out@) =~= before + path_segments(t, n as int));
    } else if t.is_kind(n, "super") {
        out.push(string_of(&chars_of("super")));
        assert(strings_view(out@) =~= before + path_segments(t, n as int));
    } else if t.is_kind(n, "self") {
        out.push(string_of(&chars_of("self")));
        assert(strings_view(out@) =~= before + path_segments(t, n as int));
    } else {
        match t.text_opt(n) {
            Some(v) => out.push(string_of(&v)),
            None => {},
        }
        assert(strings_view(out@) =~= before + path_segments(t, n as int));
    }
}

/// The segments of path node `n`.
fn segments_of(t: &SyntaxTree, n: usize) -> (r: Vec<String>)
    requires
        n < t.size(),
    ensures
        strings_view(r@) == path_segments(t, n as int),
{
    let mut out: Vec<String> = Vec::new();
    assert(strings_view(out@) =~= Seq::<Seq<char>>::empty());
    push_segments(t, n, &mut out);
    assert(strings_view(out@) =~= path_segments(t, n as int));
    out
}

/// A copy of a list of strings.
fn copy_strings(v: &Vec<String>) -> (r: Vec<String>)
    ensures
        strings_view(r@) == strings_view(v@),
{
    let mut r: Vec<String> = Vec::new();
    let mut i: usize = 0;
    while i < v.len()
        invariant
            0 <= i <= v@.len(),
            strings_view(r@) == strings_view(v@).take(i as int),
        decreases v.len() - i,
    {
        let ghost r0 = r@;
        r.push(string_of(&chars_of(v[i].as_str())));
        assert(strings_view(r@) =~= strings_view(r0).push(v@[i as int]@));
        assert(strings_view(v@).take(i + 1) =~= strings_view(v@).take(i as int).push(v@[i as int]@));
        assert(strings_view(r@) =~= strings_view(v@).take(i + 1));
        i += 1;
    }
    assert(strings_view(v@).take(v@.len() as int) =~= strings_view(v@));
    r
}

/// `a` followed by `b`.
fn cat_strings(a: &Vec<String>, b: &Vec<String>) -> (r: Vec<String>)
    ensures
        strings_view(r@) == strings_view(a@) + strings_view(b@),
{
    let mut r = copy_strings(a);
    let mut i: usize = 0;
    while i < b.len()
        invariant
            0 <= i <= b@.len(),
            strings_view(r@) == strings_view(a@) + strings_view(b@).take(i as int),
        decreases b.len() - i,
    {
        let ghost r0 = r@;
        r.push(string_of(&chars_of(b[i].as_str())));
        assert(strings_view(r@) =~= strings_view(r0).push(b@[i as int]@));
        assert(strings_view(b@).take(i + 1) =~= strings_view(b@).take(i as int).push(b@[i as int]@));
        assert(strings_view(r@) =~= strings_view(a@) + strings_view(b@).take(i + 1));
        i += 1;
    }
    assert(strings_view(b@).take(b@.len() as int) =~= strings_view(b@));
    r
}

/// The last string, or the empty one.
fn last_or_empty_exec(v: &Vec<String>) -> (r: String)
    ensures
        r@ == last_or_empty(strings_view(v@)),
{
    if v.len() > 0 {
        string_of(&chars_of(v[v.len() - 1].as_str()))
    } else {
        string_of(&Vec::new())
    }
}

/// One entry.
fn entry(path: Vec<String>, name: String) -> (r: (Vec<String>, Vec<String>))
    ensures
        strings_view(r.0@) == strings_view(path@),
        strings_view(r.1@) == seq![name@],
{
    let mut names: Vec<String> = Vec::new();
    names.push(name);
    assert(strings_view(names@) =~= seq![names@[0]@]);
    (path, names)
}

/// Push the entries of the children of scoped use list `n` from position
/// `k` on, below `prefix`.
fn push_scoped_entries(t: &SyntaxTree, n: usize, prefix: &Vec<String>, out: &mut Vec<(Vec<String>, Vec<String>)>)
    requires
        n < t.size(),
    ensures
        entries_view(final(out)@) == entries_view(old(out)@) + scoped_entries(
            t,
            n as int,
            t.children_of(n as int),
            strings_view(prefix@),
        ),
    decreases t.size() - n, t.children_of(n as int).len() + 1,
{
    let ghost before = entries_view(out@);
    let ch = t.children(n);
    let ghost cs = ch@;
    let mut pre = copy_strings(prefix);
    assert(cs.skip(0) =~= cs);
    let mut k: usize = 0;
    while k < ch.len()
        invariant
            0 <= k <= cs.len(),
            cs == ch@,
            cs == t.children_of(n as int),
            n < t.size(),
            forall|j: int| 0 <= j < cs.len() ==> n < #[trigger] cs[j] < t.size(),
            entries_view(out@) + scoped_entries(t, n as int, cs.skip(k as int), strings_view(pre@))
                == before + scoped_entries(t, n as int, cs, strings_view(prefix@)),
        decreases cs.len() - k,
    {
        assert(cs.skip(k as int)[0] == cs[k as int]);
        assert(cs.skip(k as int).drop_first() =~= cs.skip(k + 1));
        let c = ch[k];
        let ghost mid = entries_view(out@);
        let ghost p0 = strings_view(pre@);
        if t.is_kind(c, "scoped_identifier") || t.is_kind(c, "identifier") || t.is_kind(c, "crate") || t.is_kind(
            c,
            "super",
        ) || t.is_kind(c, "self") {
            push_segments(t, c, &mut pre);
        } else if t.is_kind(c, "use_list") {
            push_list_entries(t, c, &pre, out);
            assert(entries_view(out@) + scoped_entries(t, n as int, cs.skip(k + 1), strings_view(pre@)) =~= mid
                + scoped_entries(t, n as int, cs.skip(k as int), p0));
        }
        k += 1;
    }
    assert(cs.skip(cs.len() as int) =~= Seq::<usize>::empty());
    assert(entries_view(out@) =~= before + scoped_entries(t, n as int, cs, strings_view(prefix@)));
}

/// Push the entries of the items of use list `l`, below `prefix`.
fn push_list_entries(t: &SyntaxTree, l: usize, prefix: &Vec<String>, out: &mut Vec<(Vec<String>, Vec<String>)>)
    requires
        l < t.size(),
    ensures
        entries_view(final(out)@) == entries_view(old(out)@) + list_entries(
            t,
            l as int,
            t.children_of(l as int),
            strings_view(prefix@),
        ),
    decreases t.size() - l, t.children_of(l as int).len() + 1,
{
    let ghost before = entries_view(out@);
    let ghost p = strings_view(prefix@);
    let items = t.children(l);
    let ghost is = items@;
    assert(is.skip(0) =~= is);
    let mut k: usize = 0;
    while k < items.len()
        invariant
            0 <= k <= is.len(),
            is == items@,
            is == t.children_of(l as int),
            l < t.size(),
            p == strings_view(prefix@),
            forall|j: int| 0 <= j < is.len() ==> l < #[trigger] is[j] < t.size(),
            entries_view(out@) + list_entries(t, l as int, is.skip(k as int), p) == before + list_entries(
                t,
                l as int,
                is,
                p,
            ),
        decreases is.len() - k,
    {
        assert(is.skip(k as int)[0] == is[k as int]);
        assert(is.skip(k as int).drop_first() =~= is.skip(k + 1));
        let i = items[k];
        let ghost mid = entries_view(out@);
        if t.is_kind(i, "identifier") || t.is_kind(i, "type_identifier") {
            match t.text_opt(i) {
                Some(v) => {
                    let mut path = copy_strings(prefix);
                    path.push(string_of(&v));
                    assert(strings_view(path@) =~= p.push(v@));
                    out.push(entry(path, string_of(&v)));
                },
                None => {},
            }
        } else if t.is_kind(i, "scoped_identifier") {
            let sub = segments_of(t, i);
            let path = cat_strings(prefix, &sub);
            out.push(entry(path, last_or_empty_exec(&sub)));
        } else if t.is_kind(i, "scoped_use_list") {
            push_scoped_entries(t, i, prefix, out);
        } else if t.is_kind(i, "self") {
            out.push(entry(copy_strings(prefix), last_or_empty_exec(prefix)));
        } else if t.is_kind(i, "use_as_clause") {
            let o = match t.child_of_kind(i, "identifier") {
                Some(x) => Some(x),
                None => t.child_of_kind(i, "scoped_identifier"),
            };
            match o {
                Some(x) => {
                    let sub = segments_of(t, x);
                    let path = cat_strings(prefix, &sub);
                    out.push(entry(path, last_or_empty_exec(&sub)));
                },
                None => {},
            }
        }
        assert(entries_view(out@) + list_entries(t, l as int, is.skip(k + 1), p) =~= mid + list_entries(
            t,
            l as int,
            is.skip(k as int),
            p,
        ));
        k += 1;
    }
    assert(is.skip(is.len() as int) =~= Seq::<usize>::empty());
    assert(entries_view(out@) =~= before + list_entries(t, l as int, is, p));
}

/// Push the entry a path naming itself gives.
fn push_self_entry(segs: Vec<String>, out: &mut Vec<(Vec<String>, Vec<String>)>)
    ensures
        entries_view(final(out)@) == entries_view(old(out)@) + self_entry(strings_view(segs@)),
{
    let ghost before = entries_view(out@);
    if segs.len() > 0 {
        let last = last_or_empty_exec(&segs);
        out.push(entry(segs, last));
    }
    assert(entries_view(out@) =~= before + self_entry(strings_view(segs@)));
}

/// Push the entries of one child of a `use` declaration.
fn push_use_child(t: &SyntaxTree, c: usize, out: &mut Vec<(Vec<String>, Vec<String>)>)
    requires
        c < t.size(),
    ensures
        entries_view(final(out)@) == entries_view(old(out)@) + (use_child_f(t))(c),
{
    let ghost before = entries_view(out@);
    if t.is_kind(c, "use_as_clause") || t.is_kind(c, "scoped_identifier") || t.is_kind(c, "identifier") {
        push_self_entry(segments_of(t, c), out);
    } else if t.is_kind(c, "use_list") {
        let items = t.children(c);
        let mut k: usize = 0;
        while k < items.len()
            invariant
                0 <= k <= items@.len(),
                items@ == t.children_of(c as int),
                forall|j: int| 0 <= j < items@.len() ==> c < #[trigger] items@[j] < t.size(),
                entries_view(out@) == before + flat_map(items@.take(k as int), top_list_item_f(t)),
            decreases items.len() - k,
        {
            proof {
                lemma_flat_map_step(items@, top_list_item_f(t), k as int);
            }
            let i = items[k];
            let ghost mid = entries_view(out@);
            proof {
                reveal_strlit("self");
            }
            if t.is_kind(i, "identifier") || t.is_kind(i, "type_identifier") {
                match t.text_opt(i) {
                    Some(v) => {
                        let mut path: Vec<String> = Vec::new();
                        path.push(string_of(&v));
                        assert(strings_view(path@) =~= seq![v@]);
                        out.push(entry(path, string_of(&v)));
                    },
                    None => {},
                }
            } else if t.is_kind(i, "scoped_identifier") {
                push_self_entry(segments_of(t, i), out);
            } else if t.is_kind(i, "use_as_clause") {
                match t.child_of_kind(i, "identifier") {
                    Some(o) => push_self_entry(segments_of(t, o), out),
                    None => {},
                }
            } else if t.is_kind(i, "self") {
                let mut path: Vec<String> = Vec::new();
                path.push(string_of(&chars_of("self")));
                assert(strings_view(path@) =~= seq!["self"@]);
                out.push(entry(path, string_of(&chars_of("self"))));
            }
            assert(entries_view(out@) =~= mid + (top_list_item_f(t))(i));
            k += 1;
        }
        assert(items@.take(items@.len() as int) =~= items@);
    } else if t.is_kind(c, "scoped_use_list") {
        let empty: Vec<String> = Vec::new();
        assert(strings_view(empty@) =~= Seq::<Seq<char>>::empty());
        push_scoped_entries(t, c, &empty, out);
    } else if t.is_kind(c, "use_wildcard") {
        let p = match t.child_of_kind(c, "scoped_identifier") {
            Some(p) => Some(p),
            None => match t.child_of_kind(c, "identifier") {
                Some(p) => Some(p),
                None => t.child_of_kind(c, "crate"),
            },
        };
        match p {
            Some(p) => {
                proof {
                    reveal_strlit("*");
                }
                out.push(entry(segments_of(t, p), string_of(&chars_of("*"))));
            },
            None => {},
        }
    }
    assert(entries_view(out@) =~= before + (use_child_f(t))(c));
}

/// The paths `use` declaration `n` names.
fn use_paths_exec(t: &SyntaxTree, n: usize) -> (r: Vec<(Vec<String>, Vec<String>)>)
    requires
        n < t.size(),
    ensures
        entries_view(r@) == use_paths(t, n as int),
{
    let mut out: Vec<(Vec<String>, Vec<String>)> = Vec::new();
    let ch = t.children(n);
    let mut k: usize = 0;
    while k < ch.len()
        invariant
            0 <= k <= ch@.len(),
            ch@ == t.children_of(n as int),
            forall|j: int| 0 <= j < ch@.len() ==> n < #[trigger] ch@[j] < t.size(),
            entries_view(out@) == flat_map(ch@.take(k as int), use_child_f(t)),
        decreases ch.len() - k,
    {
        proof {
            lemma_flat_map_step(ch@, use_child_f(t), k as int);
        }
        push_use_child(t, ch[k], &mut out);
        k += 1;
    }
    assert(ch@.take(ch@.len() as int) =~= ch@);
    out
}


// ---------------------------------------------------------------------------
// Imports
// ---------------------------------------------------------------------------

/// Whether a `use` path is left out: it is empty, or it starts in the
/// standard library or in another crate than `crate`, `super`, `self` and
/// the crate's own name.
pub open spec fn is_skip_import(segs: Seq<Seq<char>>, crate_name: Option<Seq<char>>) -> bool {
    if segs.len() == 0 {
        true
    } else {
        let f = segs[0];
        if f == "std"@ || f == "core"@ || f == "alloc"@ {
            true
        } else if f == "crate"@ || f == "super"@ || f == "self"@ {
            false
        } else {
            crate_name != Some(f)
        }
    }
}

/// The import a `use` entry gives, unless it is skipped.
pub open spec fn entry_import_f(crate_name: Option<Seq<char>>) -> spec_fn(UseEntry) -> Seq<ImportView> {
    |e: UseEntry|
        if is_skip_import(e.0, crate_name) {
            Seq::empty()
        } else {
            seq![ImportView { path: join_with(e.0, "::"@), symbols: e.1, is_type_only: false, kind: ImportKind::Regular }]
        }
}

/// The import a `mod name;` declaration gives (none for an inline module).
pub open spec fn mod_import(t: &SyntaxTree, n: int) -> Seq<ImportView> {
    if first_child_of_kind(t, n, "declaration_list"@) is Some {
        Seq::empty()
    } else {
        match first_child_of_kind(t, n, "identifier"@) {
            Some(i) => match t.text_opt_at(i as int) {
                Some(name) => seq![
                    ImportView { path: name, symbols: seq![name], is_type_only: false, kind: ImportKind::ModDeclaration },
                ],
                None => Seq::empty(),
            },
            None => Seq::empty(),
        }
    }
}

/// The imports of one top-level item.
pub open spec fn rust_item_imports_f(t: &SyntaxTree, crate_name: Option<Seq<char>>) -> spec_fn(usize) -> Seq<ImportView> {
    |n: usize|
        if t.kind_of(n as int) == "use_declaration"@ {
            flat_map(use_paths(t, n as int), entry_import_f(crate_name))
        } else if t.kind_of(n as int) == "mod_item"@ {
            mod_import(t, n as int)
        } else {
            Seq::empty()
        }
}

/// The imports of a Rust file: its `use` paths into the crate and its
/// `mod` declarations, in order.
pub open spec fn rust_imports_spec(t: &SyntaxTree, crate_name: Option<Seq<char>>) -> Seq<ImportView> {
    flat_map(t.children_of(0), rust_item_imports_f(t, crate_name))
}

// ---------------------------------------------------------------------------
// Exports
// ---------------------------------------------------------------------------

/// What a visibility modifier child says: whether it starts with `pub`.
pub open spec fn vis_f(t: &SyntaxTree) -> spec_fn(usize) -> Option<bool> {
    |c: usize|
        if t.kind_of(c as int) == "visibility_modifier"@ {
            match t.text_opt_at(c as int) {
                Some(s) => Some("pub"@.is_prefix_of(s)),
                None => None,
            }
        } else {
            None
        }
}

/// Whether item `n` is public: its first visibility modifier with text
/// starts with `pub`.
pub open spec fn has_pub(t: &SyntaxTree, n: int) -> bool {
    first_some(t.children_of(n), vis_f(t)) == Some(true)
}

/// The export named by node `o`.
pub open spec fn named_export(t: &SyntaxTree, o: Option<usize>) -> Seq<ExportView> {
    match o {
        Some(i) => match t.text_opt_at(i as int) {
            Some(name) => seq![ExportView { name, is_re_export: false, source: None }],
            None => Seq::empty(),
        },
        None => Seq::empty(),
    }
}

/// The re-exports of a `use` entry: each name, from the joined path.
pub open spec fn reexport_f() -> spec_fn(UseEntry) -> Seq<ExportView> {
    |e: UseEntry| e.1.map_values(|sym: Seq<char>| ExportView { name: sym, is_re_export: true, source: Some(join_with(e.0, "::"@)) })
}

/// The exports of a public item.
pub open spec fn item_exports(t: &SyntaxTree, n: int) -> Seq<ExportView> {
    let k = t.kind_of(n);
    if k == "function_item"@ {
        named_export(t, first_child_of_kind(t, n, "identifier"@))
    } else if k == "struct_item"@ || k == "enum_item"@ || k == "trait_item"@ || k == "type_item"@ {
        named_export(t, first_child_of_kind(t, n, "type_identifier"@))
    } else if k == "const_item"@ || k == "static_item"@ || k == "mod_item"@ {
        named_export(t, first_child_of_kind(t, n, "identifier"@))
    } else if k == "use_declaration"@ {
        flat_map(use_paths(t, n), reexport_f())
    } else {
        Seq::empty()
    }
}

/// The exports of one top-level item.
pub open spec fn rust_item_exports_f(t: &SyntaxTree) -> spec_fn(usize) -> Seq<ExportView> {
    |n: usize|
        if has_pub(t, n as int) {
            item_exports(t, n as int)
        } else {
            Seq::empty()
        }
}

/// The exports of a Rust file: its public items, and the names its public
/// `use` declarations re-export.
pub open spec fn rust_exports_spec(t: &SyntaxTree) -> Seq<ExportView> {
    flat_map(t.children_of(0), rust_item_exports_f(t))
}

/// The crate name, as characters.
pub open spec fn name_view(o: Option<String>) -> Option<Seq<char>> {
    match o {
        Some(s) => Some(s@),
        None => None,
    }
}

/// Parser of Rust source files.
#[derive(Debug)]
pub struct RustParser {
    /// The crate's own name, so that `use` paths through it are kept.
    pub crate_name: Option<String>,
}

impl RustParser {
    /// A parser for a crate named `crate_name`, if known.
    pub fn with_crate_name(crate_name: Option<String>) -> (r: RustParser)
        ensures
            r.crate_name == crate_name,
    {
        RustParser { crate_name }
    }

    /// The language name.
    pub fn language(&self) -> (r: &'static str)
        ensures
            r@ == "rust"@,
    {
        "rust"
    }

    /// Whether a `use` path is left out.
    pub fn is_skip_import(&self, segments: &Vec<String>) -> (r: bool)
        ensures
            r == is_skip_import(strings_view(segments@), name_view(self.crate_name)),
    {
        if segments.len() == 0 {
            return true;
        }
        let f = chars_of(segments[0].as_str());
        assert(strings_view(segments@)[0] == f@);
        if crate::text::eq(&f, &chars_of("std")) || crate::text::eq(&f, &chars_of("core")) || crate::text::eq(
            &f,
            &chars_of("alloc"),
        ) {
            true
        } else if crate::text::eq(&f, &chars_of("crate")) || crate::text::eq(&f, &chars_of("super"))
            || crate::text::eq(&f, &chars_of("self")) {
            false
        } else {
            match &self.crate_name {
                Some(name) => !crate::text::eq(&f, &chars_of(name.as_str())),
                None => true,
            }
        }
    }

    /// The imports of a Rust file.
    pub fn extract_imports(&self, t: &SyntaxTree) -> (r: Vec<RawImport>)
        ensures
            imports_view(r@) == rust_imports_spec(t, name_view(self.crate_name)),
    {
        let ghost cn = name_view(self.crate_name);
        let mut out: Vec<RawImport> = Vec::new();
        let _ = t.len();
        let ch = t.children(0);
        let mut k: usize = 0;
        while k < ch.len()
            invariant
                0 <= k <= ch@.len(),
                ch@ == t.children_of(0),
                cn == name_view(self.crate_name),
                forall|j: int| 0 <= j < ch@.len() ==> 0 < #[trigger] ch@[j] < t.size(),
                imports_view(out@) == flat_map(ch@.take(k as int), rust_item_imports_f(t, cn)),
            decreases ch.len() - k,
        {
            proof {
                lemma_flat_map_step(ch@, rust_item_imports_f(t, cn), k as int);
            }
            let n = ch[k];
            let ghost mid = imports_view(out@);
            if t.is_kind(n, "use_declaration") {
                let paths = use_paths_exec(t, n);
                let ghost es = entries_view(paths@);
                let mut j: usize = 0;
                while j < paths.len()
                    invariant
                        0 <= j <= paths@.len(),
                        es == entries_view(paths@),
                        cn == name_view(self.crate_name),
                        imports_view(out@) == mid + flat_map(es.take(j as int), entry_import_f(cn)),
                    decreases paths.len() - j,
                {
                    proof {
                        lemma_flat_map_step(es, entry_import_f(cn), j as int);
                    }
                    let ghost m2 = imports_view(out@);
                    if !self.is_skip_import(&paths[j].0) {
                        let path = join_strings(&paths[j].0, "::");
                        let symbols = copy_strings(&paths[j].1);
                        out.push(RawImport { path, symbols, is_type_only: false, kind: ImportKind::Regular });
                    }
                    assert(imports_view(out@) =~= m2 + (entry_import_f(cn))(es[j as int]));
                    j += 1;
                }
                assert(es.take(es.len() as int) =~= es);
            } else if t.is_kind(n, "mod_item") {
                if t.child_of_kind(n, "declaration_list").is_none() {
                    match t.child_of_kind(n, "identifier") {
                        Some(i) => match t.text_opt(i) {
                            Some(v) => {
                                let mut symbols: Vec<String> = Vec::new();
                                symbols.push(string_of(&v));
                                assert(strings_view(symbols@) =~= seq![v@]);
                                out.push(RawImport { path: string_of(&v), symbols, is_type_only: false, kind: ImportKind::ModDeclaration });
                            },
                            None => {},
                        },
                        None => {},
                    }
                }
            }
            assert(imports_view(out@) =~= mid + (rust_item_imports_f(t, cn))(n));
            k += 1;
        }
        assert(ch@.take(ch@.len() as int) =~= ch@);
        out
    }

    /// Whether item `n` is public.
    fn has_pub_visibility(t: &SyntaxTree, n: usize) -> (r: bool)
        requires
            n < t.size(),
        ensures
            r == has_pub(t, n as int),
    {
        let ch = t.children(n);
        let ghost cs = ch@;
        assert(cs.skip(0) =~= cs);
        let mut k: usize = 0;
        while k < ch.len()
            invariant
                0 <= k <= cs.len(),
                cs == ch@,
                cs == t.children_of(n as int),
                forall|j: int| 0 <= j < cs.len() ==> n < #[trigger] cs[j] < t.size(),
                first_some(cs, vis_f(t)) == first_some(cs.skip(k as int), vis_f(t)),
            decreases ch.len() - k,
        {
            proof {
                lemma_first_some_step(cs, vis_f(t), k as int);
            }
            let c = ch[k];
            if t.is_kind(c, "visibility_modifier") {
                match t.text_opt(c) {
                    Some(v) => {
                        return crate::text::starts_with(&v, &chars_of("pub"));
                    },
                    None => {},
                }
            }
            k += 1;
        }
        false
    }

    /// The exports of a Rust file.
    pub fn extract_exports(&self, t: &SyntaxTree) -> (r: Vec<RawExport>)
        ensures
            exports_view(r@) == rust_exports_spec(t),
    {
        let mut out: Vec<RawExport> = Vec::new();
        let _ = t.len();
        let ch = t.children(0);
        let mut k: usize = 0;
        while k < ch.len()
            invariant
                0 <= k <= ch@.len(),
                ch@ == t.children_of(0),
                forall|j: int| 0 <= j < ch@.len() ==> 0 < #[trigger] ch@[j] < t.size(),
                exports_view(out@) == flat_map(ch@.take(k as int), rust_item_exports_f(t)),
            decreases ch.len() - k,
        {
            proof {
                lemma_flat_map_step(ch@, rust_item_exports_f(t), k as int);
            }
            let n = ch[k];
            let ghost mid = exports_view(out@);
            if Self::has_pub_visibility(t, n) {
                push_item_exports(t, n, &mut out);
            }
            assert(exports_view(out@) =~= mid + (rust_item_exports_f(t))(n));
            k += 1;
        }
        assert(ch@.take(ch@.len() as int) =~= ch@);
        out
    }
}

/// Push the export named by node `o`.
fn push_named_export(t: &SyntaxTree, o: Option<usize>, out: &mut Vec<RawExport>)
    requires
        o matches Some(i) ==> i < t.size(),
    ensures
        exports_view(final(out)@) == exports_view(old(out)@) + named_export(t, o),
{
    let ghost before = exports_view(out@);
    match o {
        Some(i) => match t.text_opt(i) {
            Some(v) => out.push(RawExport { name: string_of(&v), is_re_export: false, source: None }),
            None => {},
        },
        None => {},
    }
    assert(exports_view(out@) =~= before + named_export(t, o));
}

/// Push the exports of public item `n`.
fn push_item_exports(t: &SyntaxTree, n: usize, out: &mut Vec<RawExport>)
    requires
        n < t.size(),
    ensures
        exports_view(final(out)@) == exports_view(old(out)@) + item_exports(t, n as int),
{
    let ghost before = exports_view(out@);
    if t.is_kind(n, "function_item") {
        push_named_export(t, t.child_of_kind(n, "identifier"), out);
    } else if t.is_kind(n, "struct_item") || t.is_kind(n, "enum_item") || t.is_kind(n, "trait_item") || t.is_kind(
        n,
        "type_item",
    ) {
        push_named_export(t, t.child_of_kind(n, "type_identifier"), out);
    } else if t.is_kind(n, "const_item") || t.is_kind(n, "static_item") || t.is_kind(n, "mod_item") {
        push_named_export(t, t.child_of_kind(n, "identifier"), out);
    } else if t.is_kind(n, "use_declaration") {
        let paths = use_paths_exec(t, n);
        let ghost es = entries_view(paths@);
        let mut j: usize = 0;
        while j < paths.len()
            invariant
                0 <= j <= paths@.len(),
                es == entries_view(paths@),
                exports_view(out@) == before + flat_map(es.take(j as int), reexport_f()),
            decreases paths.len() - j,
        {
            proof {
                lemma_flat_map_step(es, reexport_f(), j as int);
            }
            let ghost m2 = exports_view(out@);
            let source = join_strings(&paths[j].0, "::");
            let syms = &paths[j].1;
            let ghost sv = strings_view(syms@);
            let mut m: usize = 0;
            while m < syms.len()
                invariant
                    0 <= m <= syms@.len(),
                    sv == strings_view(syms@),
                    exports_view(out@) == m2 + sv.take(m as int).map_values(
                        |sym: Seq<char>| ExportView { name: sym, is_re_export: true, source: Some(source@) },
                    ),
                decreases syms.len() - m,
            {
                let ghost m3 = exports_view(out@);
                out.push(RawExport { name: string_of(&chars_of(syms[m].as_str())), is_re_export: true, source: Some(string_of(&chars_of(source.as_str()))) });
                assert(sv.take(m + 1) =~= sv.take(m as int).push(sv[m as int]));
                assert(sv[m as int] == syms@[m as int]@);
                assert(exports_view(out@) =~= m3.push(ExportView { name: sv[m as int], is_re_export: true, source: Some(source@) }));
                assert(exports_view(out@) =~= m2 + sv.take(m + 1).map_values(
                    |sym: Seq<char>| ExportView { name: sym, is_re_export: true, source: Some(source@) },
                ));
                m += 1;
            }
            assert(sv.take(sv.len() as int) =~= sv);
            assert(exports_view(out@) =~= m2 + (reexport_f())(es[j as int]));
            j += 1;
        }
        assert(es.take(es.len() as int) =~= es);
    }
    assert(exports_view(out@) =~= before + item_exports(t, n as int));
}


// ---------------------------------------------------------------------------
// Resolution
// ---------------------------------------------------------------------------

/// Whether a file holds a module's children beside it (`mod.rs`, `lib.rs`, `main.rs`).
pub open spec fn is_mod_file(name: Seq<char>) -> bool {
    name == "mod.rs"@ || name == "lib.rs"@ || name == "main.rs"@
}

/// The segments of the directory of `from`.
pub open spec fn dir_segments(from: Seq<char>) -> Seq<Seq<char>> {
    let d = from_dir(from);
    if d.len() == 0 {
        Seq::empty()
    } else {
        split_spec(d, '/')
    }
}

/// The number of leading `super` segments.
pub open spec fn leading_supers(segs: Seq<Seq<char>>) -> nat
    decreases segs.len(),
{
    if segs.len() > 0 && segs[0] == "super"@ {
        1 + leading_supers(segs.drop_first())
    } else {
        0
    }
}

/// The file a module path `base` names: `base.rs`, then `base/mod.rs`.
pub open spec fn rust_probe(base: Seq<char>, files: Seq<Seq<char>>) -> Option<Seq<char>> {
    first_known(seq![canon_spec(base + ".rs"@), canon_spec(base + "/mod.rs"@)], files)
}

/// Probe `base`, then each shorter path obtained by dropping its last
/// segment, until one names a file.
pub open spec fn walkback(base: Seq<char>, files: Seq<Seq<char>>) -> Option<Seq<char>>
    decreases base.len(),
{
    match rust_probe(base, files) {
        Some(f) => Some(f),
        None => match rfind_char_spec(base, '/') {
            Some(i) => if 0 <= i < base.len() {
                walkback(base.take(i), files)
            } else {
                None
            },
            None => None,
        },
    }
}

/// The file-system path a `use` path through `crate`, `super` or `self`
/// names, relative to file `from`.
pub open spec fn use_fs_path(segs: Seq<Seq<char>>, from: Seq<char>) -> Option<Seq<char>> {
    let f = segs[0];
    if f == "crate"@ {
        Some(join_spec(seq!["src"@] + segs.skip(1), '/'))
    } else if f == "super"@ {
        let s0 = dir_segments(from);
        let s1 = if is_mod_file(file_name_spec(from)) {
            drop_n(s0, 1)
        } else {
            s0
        };
        let k = leading_supers(segs);
        Some(join_spec(drop_n(s1, k) + segs.skip(k as int), '/'))
    } else if f == "self"@ {
        Some(join_spec(dir_segments(from) + segs.skip(1), '/'))
    } else {
        None
    }
}

/// The directory where the child modules of file `from` live.
pub open spec fn mod_dir(from: Seq<char>) -> Seq<char> {
    let b = from_dir(from);
    let f = file_name_spec(from);
    if is_mod_file(f) {
        b
    } else {
        let stem = if ".rs"@.is_suffix_of(f) {
            f.take(f.len() - 3)
        } else {
            f
        };
        if b.len() == 0 {
            stem
        } else {
            b + "/"@ + stem
        }
    }
}

/// The file a `mod name;` declaration in `from` names.
pub open spec fn mod_resolve(name: Seq<char>, from: Seq<char>, files: Seq<Seq<char>>) -> Option<Seq<char>> {
    let d = mod_dir(from);
    first_known(seq![canon_spec(d + "/"@ + name + ".rs"@), canon_spec(d + "/"@ + name + "/mod.rs"@)], files)
}

/// What the Rust resolver makes of an import.
pub open spec fn rust_resolve_spec(import: ImportView, from: Seq<char>, files: Seq<Seq<char>>) -> Option<Seq<char>> {
    if import.kind == ImportKind::ModDeclaration {
        mod_resolve(import.path, from, files)
    } else {
        match use_fs_path(split_str_spec(import.path, "::"@), from) {
            Some(p) => walkback(p, files),
            None => None,
        }
    }
}

/// `base` followed by `tail`.
fn with_tail(base: &Vec<char>, tail: &str) -> (r: Vec<char>)
    ensures
        r@ == base@ + tail@,
{
    let mut v = slice(base, 0, base.len());
    assert(base@.subrange(0, base@.len() as int) =~= base@);
    crate::text::push_all(&mut v, &chars_of(tail));
    v
}

/// Probe a module path.
fn rust_probe_exec(base: &Vec<char>, files: &FileSet) -> (r: Option<CanonicalPath>)
    ensures
        match r {
            Some(p) => rust_probe(base@, files@) == Some(p@),
            None => rust_probe(base@, files@) is None,
        },
{
    let mut c: Vec<Vec<char>> = Vec::new();
    c.push(crate::model::canonicalize(&with_tail(base, ".rs")));
    c.push(crate::model::canonicalize(&with_tail(base, "/mod.rs")));
    assert(views(c@) =~= seq![canon_spec(base@ + ".rs"@), canon_spec(base@ + "/mod.rs"@)]);
    first_known_files(&c, files)
}

/// Probe a module path, walking back over its segments.
fn walkback_exec(base: &Vec<char>, files: &FileSet) -> (r: Option<CanonicalPath>)
    ensures
        match r {
            Some(p) => walkback(base@, files@) == Some(p@),
            None => walkback(base@, files@) is None,
        },
{
    let mut path = slice(base, 0, base.len());
    assert(base@.subrange(0, base@.len() as int) =~= base@);
    loop
        invariant
            walkback(path@, files@) == walkback(base@, files@),
        decreases path@.len(),
    {
        match rust_probe_exec(&path, files) {
            Some(f) => return Some(f),
            None => {},
        }
        match rfind_char(&path, '/') {
            Some(i) => {
                proof {
                    crate::text::lemma_rfind_char(path@, '/');
                }
                path = slice(&path, 0, i);
            },
            None => return None,
        }
    }
}

/// Whether `v` is one of `mod.rs`, `lib.rs`, `main.rs`.
fn is_mod_file_exec(v: &Vec<char>) -> (r: bool)
    ensures
        r == is_mod_file(v@),
{
    crate::text::eq(v, &chars_of("mod.rs")) || crate::text::eq(v, &chars_of("lib.rs")) || crate::text::eq(
        v,
        &chars_of("main.rs"),
    )
}

/// The segments of the directory of `from`.
fn dir_segments_exec(from: &CanonicalPath) -> (r: Vec<Vec<char>>)
    ensures
        views(r@) == dir_segments(from@),
{
    let d = match from.parent() {
        Some(d) => d,
        None => Vec::new(),
    };
    assert(d@ == from_dir(from@));
    if d.len() == 0 {
        let r: Vec<Vec<char>> = Vec::new();
        assert(views(r@) =~= Seq::<Seq<char>>::empty());
        r
    } else {
        split_char(&d, '/')
    }
}

/// Drop the last element, if any.
fn pop_one(v: &mut Vec<Vec<char>>)
    ensures
        views(final(v)@) == drop_n(views(old(v)@), 1),
{
    let ghost before = views(v@);
    if v.len() > 0 {
        v.pop();
        assert(views(v@) =~= drop_n(before, 1));
    } else {
        assert(views(v@) =~= drop_n(before, 1));
    }
}

/// The file-system path of a `use` path.
fn use_fs_path_exec(segs: &Vec<Vec<char>>, from: &CanonicalPath) -> (r: Option<Vec<char>>)
    requires
        segs@.len() > 0,
    ensures
        match r {
            Some(p) => use_fs_path(views(segs@), from@) == Some(p@),
            None => use_fs_path(views(segs@), from@) is None,
        },
{
    let ghost sv = views(segs@);
    let f = &segs[0];
    assert(sv[0] == f@);
    if crate::text::eq(f, &chars_of("crate")) {
        let mut parts: Vec<Vec<char>> = Vec::new();
        parts.push(chars_of("src"));
        let mut i: usize = 1;
        while i < segs.len()
            invariant
                1 <= i <= segs@.len(),
                sv == views(segs@),
                views(parts@) == seq!["src"@] + sv.subrange(1, i as int),
            decreases segs.len() - i,
        {
            let ghost before = views(parts@);
            parts.push(slice(&segs[i], 0, segs[i].len()));
            assert(segs@[i as int]@.subrange(0, segs@[i as int]@.len() as int) =~= segs@[i as int]@);
            assert(views(parts@) =~= before.push(sv[i as int]));
            assert(views(parts@) =~= seq!["src"@] + sv.subrange(1, i + 1));
            i += 1;
        }
        assert(sv.subrange(1, sv.len() as int) =~= sv.skip(1));
        Some(join(&parts, '/'))
    } else if crate::text::eq(f, &chars_of("super")) {
        let mut dirs = dir_segments_exec(from);
        if is_mod_file_exec(&from.file_name()) {
            pop_one(&mut dirs);
        }
        let ghost s1 = views(dirs@);
        let mut i: usize = 0;
        let super_v = chars_of("super");
        assert(sv.skip(0) =~= sv);
        while i < segs.len() && crate::text::eq(&segs[i], &super_v)
            invariant
                0 <= i <= segs@.len(),
                sv == views(segs@),
                super_v@ == "super"@,
                forall|j: int| 0 <= j < i ==> sv[j] == "super"@,
                leading_supers(sv) == i + leading_supers(sv.skip(i as int)),
                views(dirs@) == drop_n(s1, i as nat),
            decreases segs.len() - i,
        {
            assert(sv.skip(i as int)[0] == sv[i as int]);
            assert(sv.skip(i as int).drop_first() =~= sv.skip(i + 1));
            pop_one(&mut dirs);
            assert(drop_n(drop_n(s1, i as nat), 1) =~= drop_n(s1, (i + 1) as nat));
            i += 1;
        }
        assert(leading_supers(sv.skip(i as int)) == 0);
        let ghost base = views(dirs@);
        let mut j: usize = i;
        while j < segs.len()
            invariant
                i <= j <= segs@.len(),
                sv == views(segs@),
                views(dirs@) == base + sv.subrange(i as int, j as int),
            decreases segs.len() - j,
        {
            let ghost before = views(dirs@);
            dirs.push(slice(&segs[j], 0, segs[j].len()));
            assert(segs@[j as int]@.subrange(0, segs@[j as int]@.len() as int) =~= segs@[j as int]@);
            assert(views(dirs@) =~= before.push(sv[j as int]));
            assert(views(dirs@) =~= base + sv.subrange(i as int, j + 1));
            j += 1;
        }
        assert(sv.subrange(i as int, sv.len() as int) =~= sv.skip(i as int));
        Some(join(&dirs, '/'))
    } else if crate::text::eq(f, &chars_of("self")) {
        let mut dirs = dir_segments_exec(from);
        let ghost base = views(dirs@);
        let mut j: usize = 1;
        while j < segs.len()
            invariant
                1 <= j <= segs@.len(),
                sv == views(segs@),
                views(dirs@) == base + sv.subrange(1, j as int),
            decreases segs.len() - j,
        {
            let ghost before = views(dirs@);
            dirs.push(slice(&segs[j], 0, segs[j].len()));
            assert(segs@[j as int]@.subrange(0, segs@[j as int]@.len() as int) =~= segs@[j as int]@);
            assert(views(dirs@) =~= before.push(sv[j as int]));
            assert(views(dirs@) =~= base + sv.subrange(1, j + 1));
            j += 1;
        }
        assert(sv.subrange(1, sv.len() as int) =~= sv.skip(1));
        Some(join(&dirs, '/'))
    } else {
        None
    }
}

/// Resolver of Rust `use` paths and `mod` declarations.
#[derive(Debug)]
pub struct RustResolver;

impl RustResolver {
    /// The resolver.
    pub fn new() -> RustResolver {
        RustResolver
    }

    /// The file of a `mod name;` declaration in `from_file`.
    pub fn resolve_mod_declaration(&self, mod_name: &str, from_file: &CanonicalPath, known_files: &FileSet) -> (r: Option<CanonicalPath>)
        ensures
            match r {
                Some(p) => mod_resolve(mod_name@, from_file@, known_files@) == Some(p@),
                None => mod_resolve(mod_name@, from_file@, known_files@) is None,
            },
    {
        let b = match from_file.parent() {
            Some(d) => d,
            None => Vec::new(),
        };
        assert(b@ == from_dir(from_file@));
        proof {
            reveal_strlit(".rs");
            reveal_strlit("/");
        }
        let f = from_file.file_name();
        let d = if is_mod_file_exec(&f) {
            b
        } else {
            let stem = match crate::text::strip_suffix(&f, &chars_of(".rs")) {
                Some(s) => s,
                None => f,
            };
            if b.len() == 0 {
                stem
            } else {
                let mut v = with_tail(&b, "/");
                crate::text::push_all(&mut v, &stem);
                v
            }
        };
        assert(d@ =~= mod_dir(from_file@));
        let mut base = with_tail(&d, "/");
        crate::text::push_all(&mut base, &chars_of(mod_name));
        let mut c: Vec<Vec<char>> = Vec::new();
        c.push(crate::model::canonicalize(&with_tail(&base, ".rs")));
        c.push(crate::model::canonicalize(&with_tail(&base, "/mod.rs")));
        assert(views(c@) =~= seq![
            canon_spec(mod_dir(from_file@) + "/"@ + mod_name@ + ".rs"@),
            canon_spec(mod_dir(from_file@) + "/"@ + mod_name@ + "/mod.rs"@),
        ]);
        first_known_files(&c, known_files)
    }
}

impl ImportResolver for RustResolver {
    fn resolve(
        &self,
        import: &RawImport,
        from_file: &CanonicalPath,
        known_files: &FileSet,
        _workspace: Option<&WorkspaceInfo>,
    ) -> (r: Option<CanonicalPath>)
        ensures
            match r {
                Some(p) => rust_resolve_spec(import@, from_file@, known_files@) == Some(p@),
                None => rust_resolve_spec(import@, from_file@, known_files@) is None,
            },
    {
        if import.kind == ImportKind::ModDeclaration {
            return self.resolve_mod_declaration(import.path.as_str(), from_file, known_files);
        }
        let sep = chars_of("::");
        proof {
            reveal_strlit("::");
        }
        let segs = split_str(&chars_of(import.path.as_str()), &sep);
        assert(segs@.len() > 0) by {
            assert(views(segs@).len() == split_str_spec(import.path@, "::"@).len());
            reveal_with_fuel(split_str_spec, 1);
        }
        match use_fs_path_exec(&segs, from_file) {
            Some(p) => walkback_exec(&p, known_files),
            None => None,
        }
    }
}

} // verus!
