//! Walking the project: which files the analysis considers.
use vstd::prelude::*;
use crate::diagnostic::{FatalError, Warning, WarningCode};
use crate::model::{extension_spec, insert_pos, lemma_sort_spec_sorted, sort_spec, sorted_le, CanonicalPath};
use crate::parser::config::{path_key, path_key_exec};
use crate::parser::config::tsconfig::views_of_strings;
use crate::text::{before_char, chars_of, compare_text, seq_lt, starts_with, string_of, views, TextOrder};

verus! {

/// A file the walk found.
#[derive(Clone, Debug)]
pub struct FileEntry {
    pub path: String,
    pub extension: String,
}

/// What a walk found, and what went wrong on the way.
#[derive(Debug)]
pub struct WalkResult {
    pub entries: Vec<FileEntry>,
    pub warnings: Vec<Warning>,
}

/// How to walk.
#[derive(Debug)]
pub struct WalkConfig {
    pub max_files: usize,
    pub max_file_size: u64,
    pub exclude_dirs: Vec<String>,
}

impl Default for WalkConfig {
    /// At most 50,000 files of at most 1 MiB each; `.ariadne` left out.
    fn default() -> (r: WalkConfig)
        ensures
            r.max_files == 50_000,
            r.max_file_size == 1_048_576,
            r.exclude_dirs@.len() == 1,
            r.exclude_dirs@[0]@ == ".ariadne"@,
    {
        let mut exclude_dirs: Vec<String> = Vec::new();
        exclude_dirs.push(string_of(&chars_of(".ariadne")));
        WalkConfig { max_files: 50_000, max_file_size: 1_048_576, exclude_dirs }
    }
}

/// Directory traversal.
pub trait FileWalker {
    /// The files below `root`.
    fn walk(&self, root: &str, config: &WalkConfig) -> Result<WalkResult, FatalError>;
}

/// One item a directory traversal yields.
#[derive(Debug)]
pub enum WalkItem {
    /// A path, and whether it is a directory.
    Found { path: String, is_dir: bool },
    /// An error, as its message.
    Failed { message: String },
}

/// The digits of `n` in decimal.
pub open spec fn decimal_spec(n: nat) -> Seq<char>
    decreases n,
{
    if n < 10 {
        seq![digit_char(n)]
    } else {
        decimal_spec(n / 10) + seq![digit_char(n % 10)]
    }
}

/// The character of a decimal digit.
pub open spec fn digit_char(d: nat) -> char {
    if d == 0 { '0' } else if d == 1 { '1' } else if d == 2 { '2' } else if d == 3 { '3' } else if d == 4 { '4' }
    else if d == 5 { '5' } else if d == 6 { '6' } else if d == 7 { '7' } else if d == 8 { '8' } else { '9' }
}

/// `decimal_spec` (an integer's `Display`).
pub fn decimal(n: u64) -> (r: Vec<char>)
    ensures
        r@ == decimal_spec(n as nat),
    decreases n,
{
    let d = n % 10;
    let c = if d == 0 { '0' } else if d == 1 { '1' } else if d == 2 { '2' } else if d == 3 { '3' } else if d == 4 { '4' }
    else if d == 5 { '5' } else if d == 6 { '6' } else if d == 7 { '7' } else if d == 8 { '8' } else { '9' };
    if n < 10 {
        let mut v: Vec<char> = Vec::new();
        v.push(c);
        v
    } else {
        let mut v = decimal(n / 10);
        v.push(c);
        v
    }
}

/// The path relative to `root`, as `Path::strip_prefix` gives it for plain
/// paths: the part after `root` and a `/`, empty for `root` itself, the
/// path unchanged when it does not lie under `root`.
pub open spec fn relative_to(path: Seq<char>, root: Seq<char>) -> Seq<char> {
    let r = if root.len() > 0 && root.last() == '/' { root } else { root + seq!['/'] };
    if path == root {
        Seq::empty()
    } else if root.len() > 0 && r.is_prefix_of(path) {
        path.skip(r.len() as int)
    } else {
        path
    }
}

/// The first component of a relative path: `/` for an absolute one.
pub open spec fn first_component(rel: Seq<char>) -> Seq<char> {
    if rel.len() > 0 && rel[0] == '/' {
        seq!['/']
    } else {
        before_char(rel, '/')
    }
}

/// The path is excluded by hand: its first component below `root` is one
/// of the directories.
pub open spec fn manually_excluded(path: Seq<char>, root: Seq<char>, dirs: Seq<Seq<char>>) -> bool {
    dirs.contains(first_component(relative_to(path, root)))
}

/// The extension of a path, empty when it has none.
pub open spec fn ext_or_empty(p: Seq<char>) -> Seq<char> {
    match extension_spec(p) {
        Some(e) => e,
        None => Seq::empty(),
    }
}

/// A found path the walk keeps: a file with an extension, not excluded.
pub open spec fn kept(path: Seq<char>, is_dir: bool, root: Seq<char>, excluded: Seq<Seq<char>>) -> bool {
    !is_dir && !manually_excluded(path, root, excluded) && ext_or_empty(path).len() > 0
}

/// Where a path goes among paths sorted in path order (see
/// [`path_key`]): before the first one that comes after it.
pub open spec fn path_pos(r: Seq<Seq<char>>, x: Seq<char>) -> int
    decreases r.len(),
{
    if r.len() == 0 {
        0
    } else if seq_lt(path_key(x), path_key(r[0])) {
        0
    } else {
        1 + path_pos(r.drop_first(), x)
    }
}

/// The paths in path order, each inserted in turn (a stable sort).
pub open spec fn sort_paths(s: Seq<Seq<char>>) -> Seq<Seq<char>>
    decreases s.len(),
{
    if s.len() == 0 {
        Seq::empty()
    } else {
        let r = sort_paths(s.drop_last());
        r.insert(path_pos(r, s.last()), s.last())
    }
}

/// The sort keys of paths.
pub open spec fn path_keys(s: Seq<Seq<char>>) -> Seq<Seq<char>> {
    s.map_values(|p: Seq<char>| path_key(p))
}

/// `path_pos` is `insert_pos` on the keys.
proof fn lemma_path_pos_keys(r: Seq<Seq<char>>, x: Seq<char>)
    ensures
        path_pos(r, x) == insert_pos(path_keys(r), path_key(x)),
    decreases r.len(),
{
    if r.len() > 0 {
        assert(path_keys(r.drop_first()) =~= path_keys(r).drop_first());
        lemma_path_pos_keys(r.drop_first(), x);
    }
}

/// The walk's order: sorting paths sorts their keys, so the entries come
/// out in path order, as many as went in, holding the same paths.
pub proof fn lemma_sort_paths_sorted(s: Seq<Seq<char>>)
    ensures
        path_keys(sort_paths(s)) == sort_spec(path_keys(s)),
        sorted_le(path_keys(sort_paths(s))),
        sort_paths(s).len() == s.len(),
    decreases s.len(),
{
    if s.len() > 0 {
        let t = s.drop_last();
        lemma_sort_paths_sorted(t);
        let r = sort_paths(t);
        lemma_path_pos_keys(r, s.last());
        assert(path_keys(s).drop_last() =~= path_keys(t));
        let p = path_pos(r, s.last());
        lemma_sort_spec_sorted(path_keys(t));
        crate::model::lemma_insert_pos_range(path_keys(r), path_key(s.last()));
        assert(path_keys(r.insert(p, s.last())) =~= path_keys(r).insert(p, path_key(s.last())));
    }
    lemma_sort_spec_sorted(path_keys(s));
}

/// What a walk has gathered: the paths kept in the order found, the codes
/// of its warnings, and whether the file limit stopped it.
pub struct WalkState {
    pub paths: Seq<Seq<char>>,
    pub codes: Seq<WarningCode>,
    pub stopped: bool,
}

/// The walk over `items`: an error is reported (`W002ReadFailed`); a
/// directory, a file under an excluded directory or a file without
/// extension is passed over; any other file is kept, and when that makes
/// `max` files (at least one) the walk stops with `W005MaxFilesReached`.
pub open spec fn walk_state(items: Seq<WalkItem>, root: Seq<char>, excluded: Seq<Seq<char>>, max: nat) -> WalkState
    decreases items.len(),
{
    if items.len() == 0 {
        WalkState { paths: Seq::empty(), codes: Seq::empty(), stopped: false }
    } else {
        let prev = walk_state(items.drop_last(), root, excluded, max);
        if prev.stopped {
            prev
        } else {
            match items.last() {
                WalkItem::Failed { .. } => WalkState { codes: prev.codes.push(WarningCode::W002ReadFailed), ..prev },
                WalkItem::Found { path, is_dir } => if kept(path@, is_dir, root, excluded) {
                    let paths = prev.paths.push(path@);
                    if paths.len() >= max {
                        WalkState { paths, codes: prev.codes.push(WarningCode::W005MaxFilesReached), stopped: true }
                    } else {
                        WalkState { paths, ..prev }
                    }
                } else {
                    prev
                },
            }
        }
    }
}

/// An entry as plain values.
pub open spec fn entry_view(e: FileEntry) -> (Seq<char>, Seq<char>) {
    (e.path@, e.extension@)
}

/// The entries of sorted paths: each path with its extension.
pub open spec fn entries_of(paths: Seq<Seq<char>>) -> Seq<(Seq<char>, Seq<char>)> {
    paths.map_values(|p: Seq<char>| (p, ext_or_empty(p)))
}

/// A stopped walk stays as it is.
proof fn lemma_walk_stopped(items: Seq<WalkItem>, k: int, root: Seq<char>, excluded: Seq<Seq<char>>, max: nat)
    requires
        0 <= k <= items.len(),
        walk_state(items.take(k), root, excluded, max).stopped,
    ensures
        walk_state(items, root, excluded, max) == walk_state(items.take(k), root, excluded, max),
    decreases items.len() - k,
{
    if k < items.len() {
        let next = items.take(k + 1);
        assert(next.drop_last() =~= items.take(k));
        assert(next.take(k) =~= items.take(k));
        assert(walk_state(next, root, excluded, max) == walk_state(items.take(k), root, excluded, max));
        lemma_walk_stopped(items, k + 1, root, excluded, max);
    } else {
        assert(items.take(k) =~= items);
    }
}

/// `relative_to`.
pub(crate) fn relative_to_exec(path: &Vec<char>, root: &Vec<char>) -> (r: Vec<char>)
    ensures
        r@ == relative_to(path@, root@),
{
    let mut rr = crate::text::slice(root, 0, root.len());
    assert(root@.subrange(0, root@.len() as int) =~= root@);
    if !(root.len() > 0 && root[root.len() - 1] == '/') {
        rr.push('/');
    }
    if crate::text::eq(path, root) {
        Vec::new()
    } else if root.len() > 0 && starts_with(path, &rr) {
        crate::text::slice(path, rr.len(), path.len())
    } else {
        crate::text::slice(path, 0, path.len())
    }
}

/// `manually_excluded`.
fn manually_excluded_exec(path: &Vec<char>, root: &Vec<char>, dirs: &Vec<String>) -> (r: bool)
    ensures
        r == manually_excluded(path@, root@, views_of_strings(dirs@)),
{
    let rel = relative_to_exec(path, root);
    let first = if rel.len() > 0 && rel[0] == '/' {
        let mut v: Vec<char> = Vec::new();
        v.push('/');
        v
    } else {
        crate::text::before_first(&rel, '/')
    };
    assert(first@ == first_component(rel@)) by {
        if rel@.len() > 0 && rel@[0] == '/' {
            assert(first@ =~= seq!['/']);
        }
    }
    let mut i: usize = 0;
    while i < dirs.len()
        invariant
            i <= dirs@.len(),
            first@ == first_component(relative_to(path@, root@)),
            forall|m: int| 0 <= m < i ==> dirs@[m]@ != first@,
        decreases dirs.len() - i,
    {
        if crate::text::eq(&chars_of(dirs[i].as_str()), &first) {
            assert(views_of_strings(dirs@)[i as int] == first@);
            return true;
        }
        i += 1;
    }
    proof {
        if views_of_strings(dirs@).contains(first@) {
            let m = choose|m: int| 0 <= m < views_of_strings(dirs@).len() && views_of_strings(dirs@)[m] == first@;
            assert(dirs@[m]@ == first@);
        }
    }
    false
}

/// `ext_or_empty`.
fn ext_or_empty_exec(p: &Vec<char>) -> (r: Vec<char>)
    ensures
        r@ == ext_or_empty(p@),
{
    match CanonicalPath::from_raw(p).extension() {
        Some(e) => e,
        None => Vec::new(),
    }
}

/// The paths in path order (`sort_paths`).
fn sort_paths_exec(v: &Vec<Vec<char>>) -> (r: Vec<Vec<char>>)
    ensures
        views(r@) == sort_paths(views(v@)),
{
    let ghost sv = views(v@);
    let mut out: Vec<Vec<char>> = Vec::new();
    let mut i: usize = 0;
    while i < v.len()
        invariant
            i <= v@.len(),
            sv == views(v@),
            views(out@) == sort_paths(sv.take(i as int)),
        decreases v.len() - i,
    {
        let x = crate::text::slice(&v[i], 0, v[i].len());
        assert(v@[i as int]@.subrange(0, v@[i as int]@.len() as int) =~= v@[i as int]@);
        let kx = path_key_exec(&x);
        let ghost rv = views(out@);
        let mut j: usize = 0;
        assert(rv.skip(0) =~= rv);
        while j < out.len()
            invariant
                j <= out@.len(),
                rv == views(out@),
                rv.len() == out@.len(),
                kx@ == path_key(x@),
                path_pos(rv, x@) == j + path_pos(rv.skip(j as int), x@),
            ensures
                j <= out@.len(),
                rv == views(out@),
                path_pos(rv, x@) == j + path_pos(rv.skip(j as int), x@),
                j == out@.len() || seq_lt(path_key(x@), path_key(rv[j as int])),
            decreases out.len() - j,
        {
            let ky = path_key_exec(&out[j]);
            assert(rv.skip(j as int)[0] == rv[j as int]);
            if compare_text(&kx, &ky) == TextOrder::Less {
                break;
            }
            assert(rv.skip(j as int).drop_first() =~= rv.skip(j + 1));
            j += 1;
        }
        proof {
            if j == out@.len() {
                assert(rv.skip(j as int) =~= Seq::<Seq<char>>::empty());
            } else {
                assert(rv.skip(j as int)[0] == rv[j as int]);
            }
            assert(path_pos(rv, x@) == j);
            assert(sv.take(i + 1).drop_last() =~= sv.take(i as int));
            assert(sv.take(i + 1).last() == x@);
        }
        let ghost xv = x@;
        out.insert(j, x);
        assert(views(out@) =~= rv.insert(j as int, xv));
        i += 1;
    }
    assert(sv.take(v@.len() as int) =~= sv);
    out
}

/// The file limit: a walk that did not stop keeps fewer than `max` files
/// (none, for a limit of zero), and it stops, with `W005MaxFilesReached` as
/// its last warning, exactly when the file it just kept made `max` (or the
/// first file, for a limit of zero); `W005MaxFilesReached` is reported only
/// then.
pub proof fn lemma_walk_limit(items: Seq<WalkItem>, root: Seq<char>, excluded: Seq<Seq<char>>, max: nat)
    ensures
        ({
            let st = walk_state(items, root, excluded, max);
            &&& !st.stopped ==> (st.paths.len() < max || st.paths.len() == 0) && !st.codes.contains(
                WarningCode::W005MaxFilesReached,
            )
            &&& st.stopped ==> st.paths.len() == (if max == 0 { 1 } else { max }) && st.codes.len() > 0
                && st.codes.last() == WarningCode::W005MaxFilesReached
                && st.codes.drop_last().contains(WarningCode::W005MaxFilesReached) == false
        }),
    decreases items.len(),
{
    if items.len() > 0 {
        lemma_walk_limit(items.drop_last(), root, excluded, max);
        let prev = walk_state(items.drop_last(), root, excluded, max);
        if !prev.stopped {
            match items.last() {
                WalkItem::Failed { .. } => {
                    let c = prev.codes.push(WarningCode::W002ReadFailed);
                    assert(!c.contains(WarningCode::W005MaxFilesReached)) by {
                        if c.contains(WarningCode::W005MaxFilesReached) {
                            let k = choose|k: int| 0 <= k < c.len() && c[k] == WarningCode::W005MaxFilesReached;
                            assert(k < prev.codes.len());
                            assert(prev.codes[k] == c[k]);
                        }
                    }
                },
                WalkItem::Found { path, is_dir } => {
                    let c = prev.codes.push(WarningCode::W005MaxFilesReached);
                    assert(c.drop_last() =~= prev.codes);
                },
            }
        }
    }
}

/// Finish a walk over what the traversal of `root` yielded (see
/// [`walk_state`]), `excluded` naming the top-level directories to pass
/// over by hand: the files kept, in path order, each with its extension.
pub fn finish_walk(items: &Vec<WalkItem>, root: &str, excluded: &Vec<String>, max_files: usize) -> (r: WalkResult)
    ensures
        ({
            let st = walk_state(items@, root@, views_of_strings(excluded@), max_files as nat);
            &&& r.entries@.map_values(|e: FileEntry| entry_view(e)) == entries_of(sort_paths(st.paths))
            &&& r.warnings@.map_values(|w: Warning| w.code) == st.codes
        }),
{
    let ghost ex = views_of_strings(excluded@);
    let ghost all = items@;
    let rootv = chars_of(root);
    let mut paths: Vec<Vec<char>> = Vec::new();
    let mut warnings: Vec<Warning> = Vec::new();
    let mut i: usize = 0;
    assert(all.take(all.len() as int) =~= all);
    while i < items.len()
        invariant_except_break
            ({
                let st = walk_state(all.take(i as int), root@, ex, max_files as nat);
                &&& views(paths@) == st.paths
                &&& warnings@.map_values(|w: Warning| w.code) == st.codes
                &&& !st.stopped
            }),
        invariant
            i <= items@.len(),
            all == items@,
            all.take(all.len() as int) == all,
            ex == views_of_strings(excluded@),
            rootv@ == root@,
        ensures
            ({
                let st = walk_state(all, root@, ex, max_files as nat);
                &&& views(paths@) == st.paths
                &&& warnings@.map_values(|w: Warning| w.code) == st.codes
            }),
        decreases items.len() - i,
    {
        let ghost pre = all.take(i as int);
        let ghost post = all.take(i + 1);
        assert(post.drop_last() =~= pre);
        assert(post.last() == all[i as int]);
        let ghost w0 = warnings@;
        let ghost p0 = paths@;
        match &items[i] {
            WalkItem::Failed { message } => {
                warnings.push(Warning {
                    code: WarningCode::W002ReadFailed,
                    path: CanonicalPath::new(message.as_str()),
                    message: string_of(&chars_of("walk error")),
                    detail: Some(string_of(&chars_of(message.as_str()))),
                });
                assert(warnings@.map_values(|w: Warning| w.code) =~= w0.map_values(|w: Warning| w.code).push(
                    WarningCode::W002ReadFailed,
                ));
            },
            WalkItem::Found { path, is_dir } => {
                let pv = chars_of(path.as_str());
                if !*is_dir && !manually_excluded_exec(&pv, &rootv, excluded) && ext_or_empty_exec(&pv).len() > 0 {
                    paths.push(pv);
                    assert(views(paths@) =~= views(p0).push(path@));
                    if paths.len() >= max_files {
                        let mut msg = chars_of("file limit reached (");
                        crate::text::push_all(&mut msg, &decimal(max_files as u64));
                        crate::text::push_all(&mut msg, &chars_of("), graph may be partial"));
                        let mut lim = chars_of("(limit: ");
                        crate::text::push_all(&mut lim, &decimal(max_files as u64));
                        lim.push(')');
                        warnings.push(Warning {
                            code: WarningCode::W005MaxFilesReached,
                            path: CanonicalPath::new(string_of(&lim).as_str()),
                            message: string_of(&msg),
                            detail: None,
                        });
                        assert(warnings@.map_values(|w: Warning| w.code) =~= w0.map_values(|w: Warning| w.code).push(
                            WarningCode::W005MaxFilesReached,
                        ));
                        proof {
                            lemma_walk_stopped(all, i + 1, root@, ex, max_files as nat);
                        }
                        i = i + 1;
                        break;
                    }
                }
            },
        }
        i += 1;
        proof {
            if i == items@.len() {
                assert(all.take(i as int) =~= all);
            }
        }
    }
    let sorted = sort_paths_exec(&paths);
    let mut entries: Vec<FileEntry> = Vec::new();
    let mut k: usize = 0;
    while k < sorted.len()
        invariant
            k <= sorted@.len(),
            entries@.map_values(|e: FileEntry| entry_view(e)) == entries_of(views(sorted@)).take(k as int),
        decreases sorted.len() - k,
    {
        let ghost e0 = entries@;
        let ext = ext_or_empty_exec(&sorted[k]);
        let e = FileEntry { path: string_of(&sorted[k]), extension: string_of(&ext) };
        let ghost ev = entry_view(e);
        entries.push(e);
        assert(entries@.map_values(|e: FileEntry| entry_view(e)) =~= e0.map_values(|e: FileEntry| entry_view(e)).push(ev));
        assert(entries@.map_values(|e: FileEntry| entry_view(e)) =~= entries_of(views(sorted@)).take(k + 1));
        k += 1;
    }
    assert(entries_of(views(sorted@)).take(sorted@.len() as int) =~= entries_of(views(sorted@)));
    WalkResult { entries, warnings }
}

} // verus!
