//! Project-relative paths and the set of files known to the analysis.
use vstd::prelude::*;

use crate::text::{
    chars_of, compare_text, join, join_spec, lemma_lt_irreflexive, lemma_lt_total,
    lemma_lt_transitive, replace_char, replace_char_spec, rfind_char, rfind_char_spec, seq_lt,
    slice, split_char, split_spec, string_of, views, TextOrder,
};

verus! {

/// A path segment consisting of one dot.
pub open spec fn is_dot_seg(seg: Seq<char>) -> bool {
    seg.len() == 1 && seg[0] == '.'
}

/// A path segment consisting of two dots.
pub open spec fn is_dotdot_seg(seg: Seq<char>) -> bool {
    seg.len() == 2 && seg[0] == '.' && seg[1] == '.'
}

/// Apply one segment to a stack of normalized segments: empty and `.`
/// segments vanish, `..` cancels the segment before it (when that is not
/// itself `..`), everything else is kept.
pub open spec fn push_segment(stack: Seq<Seq<char>>, seg: Seq<char>) -> Seq<Seq<char>> {
    if seg.len() == 0 || is_dot_seg(seg) {
        stack
    } else if is_dotdot_seg(seg) {
        if stack.len() > 0 && !is_dotdot_seg(stack.last()) {
            stack.drop_last()
        } else {
            stack.push(seg)
        }
    } else {
        stack.push(seg)
    }
}

/// The segments left after applying all of `segs` in order.
pub open spec fn normalize_segments(segs: Seq<Seq<char>>) -> Seq<Seq<char>>
    decreases segs.len(),
{
    if segs.len() == 0 {
        seq![]
    } else {
        push_segment(normalize_segments(segs.drop_last()), segs.last())
    }
}

/// The canonical form of a path: backslashes become slashes, empty and `.`
/// segments are dropped and `..` segments are resolved lexically.
pub open spec fn canon_spec(s: Seq<char>) -> Seq<char> {
    join_spec(normalize_segments(split_spec(replace_char_spec(s, '\\', '/'), '/')), '/')
}

/// Normalize a list of segments.
pub fn normalize_segment_list(segs: &Vec<Vec<char>>) -> (r: Vec<Vec<char>>)
    ensures
        views(r@) == normalize_segments(views(segs@)),
{
    let mut r: Vec<Vec<char>> = Vec::new();
    let mut i: usize = 0;
    while i < segs.len()
        invariant
            i <= segs.len(),
            views(r@) == normalize_segments(views(segs@.take(i as int))),
        decreases segs.len() - i,
    {
        let seg = &segs[i];
        let ghost before = views(r@);
        proof {
            assert(views(segs@.take(i + 1)).drop_last() =~= views(segs@.take(i as int)));
            assert(views(segs@.take(i + 1)).last() == seg@);
        }
        let is_dot = seg.len() == 1 && seg[0] == '.';
        let is_dotdot = seg.len() == 2 && seg[0] == '.' && seg[1] == '.';
        if seg.len() == 0 || is_dot {
        } else if is_dotdot {
            let top_is_dotdot = r.len() > 0 && r[r.len() - 1].len() == 2 && r[r.len() - 1][0]
                == '.' && r[r.len() - 1][1] == '.';
            proof {
                if r.len() > 0 {
                    assert(before.last() == r@[r.len() - 1]@);
                }
            }
            if r.len() > 0 && !top_is_dotdot {
                r.pop();
                assert(views(r@) =~= before.drop_last());
            } else {
                r.push(seg.clone());
                assert(views(r@) =~= before.push(seg@));
            }
        } else {
            r.push(seg.clone());
            assert(views(r@) =~= before.push(seg@));
        }
        i += 1;
    }
    assert(segs@.take(segs.len() as int) == segs@);
    r
}

/// The canonical form of a path given as characters.
pub fn canonicalize(s: &Vec<char>) -> (r: Vec<char>)
    ensures
        r@ == canon_spec(s@),
{
    let replaced = replace_char(s, '\\', '/');
    let segs = split_char(&replaced, '/');
    let norm = normalize_segment_list(&segs);
    join(&norm, '/')
}

/// Directory part of a path: everything before the last `/`, if any.
pub open spec fn parent_spec(s: Seq<char>) -> Option<Seq<char>> {
    match rfind_char_spec(s, '/') {
        Some(i) => Some(s.take(i)),
        None => None,
    }
}

/// The last segment of a path.
pub open spec fn file_name_spec(s: Seq<char>) -> Seq<char> {
    match rfind_char_spec(s, '/') {
        Some(i) => s.skip(i + 1),
        None => s,
    }
}

/// Extension of a file name as `Path::extension` reports it: the text after
/// the last dot, unless there is no dot or the only dot leads the name.
pub open spec fn extension_spec(s: Seq<char>) -> Option<Seq<char>> {
    let name = file_name_spec(s);
    match rfind_char_spec(name, '.') {
        Some(i) => if i == 0 || is_dotdot_seg(name) {
            None
        } else {
            Some(name.skip(i + 1))
        },
        None => None,
    }
}

/// A normalized, project-relative, forward-slash path.
#[derive(Debug, PartialEq, Eq, PartialOrd, Ord, Hash)]
pub struct CanonicalPath {
    path: String,
}

impl View for CanonicalPath {
    type V = Seq<char>;

    closed spec fn view(&self) -> Seq<char> {
        self.path@
    }
}

impl CanonicalPath {
    /// Canonicalize a path string.
    pub fn new(s: &str) -> (r: CanonicalPath)
        ensures
            r@ == canon_spec(s@),
    {
        let v = chars_of(s);
        let c = canonicalize(&v);
        CanonicalPath { path: string_of(&c) }
    }

    /// Canonicalize a path given as characters.
    pub fn from_chars(v: &Vec<char>) -> (r: CanonicalPath)
        ensures
            r@ == canon_spec(v@),
    {
        let c = canonicalize(v);
        CanonicalPath { path: string_of(&c) }
    }

    /// Wrap text that is taken as it stands, without normalization.
    pub fn from_raw(v: &Vec<char>) -> (r: CanonicalPath)
        ensures
            r@ == v@,
    {
        CanonicalPath { path: string_of(v) }
    }

    /// The path as a string slice.
    pub fn as_str(&self) -> (r: &str)
        ensures
            r@ == self@,
    {
        self.path.as_str()
    }

    /// The characters of the path.
    pub fn chars(&self) -> (r: Vec<char>)
        ensures
            r@ == self@,
    {
        chars_of(self.path.as_str())
    }

    /// An equal copy.
    pub fn duplicate(&self) -> (r: CanonicalPath)
        ensures
            r@ == self@,
    {
        CanonicalPath { path: self.path.clone() }
    }

    /// Whether two paths are equal.
    pub fn same(&self, other: &CanonicalPath) -> (r: bool)
        ensures
            r == (self@ == other@),
    {
        self.path == other.path
    }

    /// The directory part, if the path has a `/`.
    pub fn parent(&self) -> (r: Option<Vec<char>>)
        ensures
            match r {
                Some(p) => parent_spec(self@) == Some(p@),
                None => parent_spec(self@) is None,
            },
    {
        let v = self.chars();
        match rfind_char(&v, '/') {
            Some(i) => Some(slice(&v, 0, i)),
            None => None,
        }
    }

    /// The last segment of the path.
    pub fn file_name(&self) -> (r: Vec<char>)
        ensures
            r@ == file_name_spec(self@),
    {
        let v = self.chars();
        match rfind_char(&v, '/') {
            Some(i) => slice(&v, i + 1, v.len()),
            None => v,
        }
    }

    /// The extension of the last segment, if any.
    pub fn extension(&self) -> (r: Option<Vec<char>>)
        ensures
            match r {
                Some(e) => extension_spec(self@) == Some(e@),
                None => extension_spec(self@) is None,
            },
    {
        let name = self.file_name();
        match rfind_char(&name, '.') {
            Some(i) => {
                if i == 0 || (name.len() == 2 && name[0] == '.' && name[1] == '.') {
                    None
                } else {
                    Some(slice(&name, i + 1, name.len()))
                }
            },
            None => None,
        }
    }
}

impl Clone for CanonicalPath {
    fn clone(&self) -> (r: Self)
        ensures
            r@ == self@,
    {
        self.duplicate()
    }
}

/// Strictly increasing in the order of `str`.
pub open spec fn sorted_distinct(s: Seq<Seq<char>>) -> bool {
    forall|i: int, j: int| 0 <= i < j < s.len() ==> seq_lt(#[trigger] s[i], #[trigger] s[j])
}

/// The strictly increasing sequence holding exactly the elements of `s`.
pub open spec fn sorted_set(s: Seq<Seq<char>>) -> Seq<Seq<char>> {
    choose|r: Seq<Seq<char>>| sorted_distinct(r) && (forall|x: Seq<char>| r.contains(x) <==> s.contains(x))
}

/// Two strictly increasing sequences with the same elements are equal.
pub proof fn lemma_sorted_unique(a: Seq<Seq<char>>, b: Seq<Seq<char>>)
    requires
        sorted_distinct(a),
        sorted_distinct(b),
        forall|x: Seq<char>| a.contains(x) <==> b.contains(x),
    ensures
        a == b,
    decreases a.len(),
{
    if a.len() == 0 {
        if b.len() > 0 {
            assert(b.contains(b[0]));
        }
        assert(a =~= b);
    } else {
        assert(a.contains(a[0]));
        let j = choose|j: int| 0 <= j < b.len() && b[j] == a[0];
        assert(b.contains(b[0]));
        let i = choose|i: int| 0 <= i < a.len() && a[i] == b[0];
        if j > 0 {
            assert(seq_lt(b[0], b[j]));
            if i > 0 {
                assert(seq_lt(a[0], a[i]));
                lemma_lt_transitive(a[0], b[0], a[0]);
                lemma_lt_irreflexive(a[0]);
            } else {
                lemma_lt_irreflexive(a[0]);
            }
        }
        let a1 = a.drop_first();
        let b1 = b.drop_first();
        assert forall|x: Seq<char>| a1.contains(x) <==> b1.contains(x) by {
            if a1.contains(x) {
                let k = choose|k: int| 0 <= k < a1.len() && a1[k] == x;
                assert(a[k + 1] == x);
                assert(seq_lt(a[0], a[k + 1]));
                lemma_lt_irreflexive(x);
                assert(b.contains(x));
                let m = choose|m: int| 0 <= m < b.len() && b[m] == x;
                assert(m != 0);
                assert(b1[m - 1] == x);
            }
            if b1.contains(x) {
                let k = choose|k: int| 0 <= k < b1.len() && b1[k] == x;
                assert(b[k + 1] == x);
                assert(seq_lt(b[0], b[k + 1]));
                lemma_lt_irreflexive(x);
                assert(a.contains(x));
                let m = choose|m: int| 0 <= m < a.len() && a[m] == x;
                assert(m != 0);
                assert(a1[m - 1] == x);
            }
        }
        assert forall|p: int, q: int| 0 <= p < q < a1.len() implies seq_lt(#[trigger] a1[p], #[trigger] a1[q]) by {
            assert(a1[p] == a[p + 1] && a1[q] == a[q + 1]);
        }
        assert forall|p: int, q: int| 0 <= p < q < b1.len() implies seq_lt(#[trigger] b1[p], #[trigger] b1[q]) by {
            assert(b1[p] == b[p + 1] && b1[q] == b[q + 1]);
        }
        lemma_sorted_unique(a1, b1);
        assert(a =~= seq![a[0]] + a1);
        assert(b =~= seq![b[0]] + b1);
    }
}

/// A strictly increasing sequence is the sorted set of anything with the same elements.
pub proof fn lemma_sorted_set(r: Seq<Seq<char>>, s: Seq<Seq<char>>)
    requires
        sorted_distinct(r),
        forall|x: Seq<char>| r.contains(x) <==> s.contains(x),
    ensures
        sorted_set(s) == r,
{
    let c = sorted_set(s);
    lemma_sorted_unique(c, r);
}

/// Adjacent repeats dropped.
pub open spec fn dedup_adjacent(r: Seq<Seq<char>>) -> Seq<Seq<char>>
    decreases r.len(),
{
    if r.len() == 0 {
        r
    } else {
        let d = dedup_adjacent(r.drop_last());
        if d.len() > 0 && d.last() == r.last() {
            d
        } else {
            d.push(r.last())
        }
    }
}

proof fn lemma_dedup_sorted(r: Seq<Seq<char>>)
    requires
        sorted_le(r),
    ensures
        sorted_distinct(dedup_adjacent(r)),
        forall|x: Seq<char>| dedup_adjacent(r).contains(x) <==> r.contains(x),
        r.len() > 0 ==> dedup_adjacent(r).len() > 0 && dedup_adjacent(r).last() == r.last(),
    decreases r.len(),
{
    if r.len() > 0 {
        let t = r.drop_last();
        assert forall|i: int, j: int| 0 <= i < j < t.len() implies !seq_lt(#[trigger] t[j], #[trigger] t[i]) by {
            assert(t[i] == r[i] && t[j] == r[j]);
        }
        lemma_dedup_sorted(t);
        let d = dedup_adjacent(t);
        let x = r.last();
        assert forall|y: Seq<char>| r.contains(y) <==> (t.contains(y) || y == x) by {
            if r.contains(y) {
                let k = choose|k: int| 0 <= k < r.len() && r[k] == y;
                if k < r.len() - 1 {
                    assert(t[k] == y);
                }
            }
            if t.contains(y) {
                let k = choose|k: int| 0 <= k < t.len() && t[k] == y;
                assert(r[k] == y);
            }
            if y == x {
                assert(r[r.len() - 1] == y);
            }
        }
        if d.len() > 0 && d.last() == x {
        } else {
            let e = d.push(x);
            assert forall|y: Seq<char>| e.contains(y) <==> (d.contains(y) || y == x) by {
                if e.contains(y) {
                    let k = choose|k: int| 0 <= k < e.len() && e[k] == y;
                    if k < d.len() {
                        assert(d[k] == y);
                    }
                }
                if d.contains(y) {
                    let k = choose|k: int| 0 <= k < d.len() && d[k] == y;
                    assert(e[k] == y);
                }
                if y == x {
                    assert(e[d.len() as int] == y);
                }
            }
            if d.len() > 0 {
                let l = d.last();
                assert(l == t.last());
                assert(!seq_lt(x, l)) by {
                    assert(r[r.len() - 2] == l);
                    assert(r[r.len() - 1] == x);
                }
                lemma_lt_total(l, x);
                assert(seq_lt(l, x));
                assert forall|i: int, j: int| 0 <= i < j < e.len() implies seq_lt(#[trigger] e[i], #[trigger] e[j]) by {
                    if j == d.len() {
                        if i < d.len() - 1 {
                            assert(seq_lt(d[i], d[d.len() - 1]));
                            lemma_lt_transitive(d[i], l, x);
                        }
                    } else {
                        assert(e[i] == d[i] && e[j] == d[j]);
                    }
                }
            }
        }
    }
}

/// Every sequence of texts has a sorted set.
pub proof fn lemma_sorted_set_exists(s: Seq<Seq<char>>)
    ensures
        sorted_distinct(sorted_set(s)),
        forall|x: Seq<char>| sorted_set(s).contains(x) <==> s.contains(x),
{
    lemma_sort_spec_sorted(s);
    let r = sort_spec(s);
    lemma_dedup_sorted(r);
    lemma_sorted_set(dedup_adjacent(r), s);
}

/// Sequences with the same elements have the same sorted set.
pub proof fn lemma_sorted_set_same(a: Seq<Seq<char>>, b: Seq<Seq<char>>)
    requires
        forall|x: Seq<char>| a.contains(x) <==> b.contains(x),
    ensures
        sorted_set(a) == sorted_set(b),
{
    lemma_sorted_set_exists(a);
    lemma_sorted_set(sorted_set(a), b);
}

/// The views of a sequence of paths.
pub open spec fn path_views(v: Seq<CanonicalPath>) -> Seq<Seq<char>> {
    v.map_values(|p: CanonicalPath| p@)
}

/// The set of files known to the analysis, kept sorted and free of
/// duplicates so that iteration is deterministic.
#[derive(Debug)]
pub struct FileSet {
    files: Vec<CanonicalPath>,
}

impl View for FileSet {
    type V = Seq<Seq<char>>;

    closed spec fn view(&self) -> Seq<Seq<char>> {
        path_views(self.files@)
    }
}

impl FileSet {
    #[verifier::type_invariant]
    closed spec fn inv(self) -> bool {
        sorted_distinct(path_views(self.files@))
    }

    /// The empty set.
    pub fn new() -> (r: FileSet)
        ensures
            r@ == Seq::<Seq<char>>::empty(),
    {
        let r = FileSet { files: Vec::new() };
        assert(path_views(r.files@) =~= Seq::<Seq<char>>::empty());
        r
    }

    /// The files in increasing order; each occurs once.
    pub fn paths(&self) -> (r: &Vec<CanonicalPath>)
        ensures
            path_views(r@) == self@,
            sorted_distinct(self@),
    {
        proof {
            use_type_invariant(self);
        }
        &self.files
    }

    /// Number of files.
    pub fn len(&self) -> (r: usize)
        ensures
            r == self@.len(),
    {
        self.files.len()
    }

    /// Position of the first element not below `x` (binary search).
    fn lower_bound(&self, x: &Vec<char>) -> (k: usize)
        ensures
            k <= self@.len(),
            forall|i: int| 0 <= i < k ==> seq_lt(self@[i], x@),
            forall|i: int| k <= i < self@.len() ==> !seq_lt(self@[i], x@),
    {
        proof {
            use_type_invariant(self);
        }
        let ghost s = self@;
        let mut lo: usize = 0;
        let mut hi: usize = self.files.len();
        while lo < hi
            invariant
                s == self@,
                sorted_distinct(s),
                lo <= hi <= s.len(),
                s.len() == self.files.len(),
                forall|i: int| 0 <= i < lo ==> seq_lt(s[i], x@),
                forall|i: int| hi <= i < s.len() ==> !seq_lt(s[i], x@),
            decreases hi - lo,
        {
            let mid = lo + (hi - lo) / 2;
            let m = self.files[mid].chars();
            assert(s[mid as int] == m@);
            match compare_text(&m, x) {
                TextOrder::Less => {
                    proof {
                        assert forall|i: int| 0 <= i < mid + 1 implies seq_lt(s[i], x@) by {
                            if i < mid {
                                lemma_lt_transitive(s[i], s[mid as int], x@);
                            }
                        }
                    }
                    lo = mid + 1;
                },
                _ => {
                    proof {
                        assert forall|i: int| mid <= i < s.len() implies !seq_lt(s[i], x@) by {
                            if i > mid && seq_lt(s[i], x@) {
                                lemma_lt_transitive(s[mid as int], s[i], x@);
                            }
                        }
                    }
                    hi = mid;
                },
            }
        }
        lo
    }

    /// Whether the set holds `p`.
    pub fn contains(&self, p: &CanonicalPath) -> (r: bool)
        ensures
            r == self@.contains(p@),
    {
        proof {
            use_type_invariant(self);
        }
        let x = p.chars();
        let k = self.lower_bound(&x);
        if k < self.files.len() && self.files[k].same(p) {
            assert(self@[k as int] == p@);
            return true;
        }
        proof {
            if self@.contains(p@) {
                let j = choose|j: int| 0 <= j < self@.len() && self@[j] == p@;
                lemma_lt_irreflexive(p@);
                if j > k {
                    lemma_lt_total(self@[k as int], p@);
                    assert(seq_lt(self@[k as int], self@[j]));
                }
            }
        }
        false
    }

    /// Add `p` unless it is already there.
    pub fn insert(&mut self, p: CanonicalPath)
        ensures
            forall|x: Seq<char>| final(self)@.contains(x) <==> (old(self)@.contains(x) || x == p@),
    {
        proof {
            use_type_invariant(&*self);
        }
        let x = p.chars();
        let k = self.lower_bound(&x);
        if k < self.files.len() && self.files[k].same(&p) {
            assert(self@[k as int] == p@);
            return;
        }
        let ghost s = self@;
        proof {
            if k < s.len() {
                lemma_lt_total(s[k as int], p@);
            }
        }
        let mut files: Vec<CanonicalPath> = Vec::new();
        std::mem::swap(&mut files, &mut self.files);
        files.insert(k, p);
        proof {
            let t = path_views(files@);
            assert(t =~= s.take(k as int).push(x@) + s.skip(k as int));
            assert forall|j: int| k < j < t.len() implies seq_lt(x@, #[trigger] t[j]) by {
                if j > k + 1 {
                    lemma_lt_transitive(x@, s[k as int], t[j]);
                }
            }
            assert forall|i: int, j: int| 0 <= i < j < t.len() implies seq_lt(t[i], t[j]) by {
                if i < k && j > k {
                    lemma_lt_transitive(t[i], x@, t[j]);
                }
            }
            assert forall|y: Seq<char>| t.contains(y) <==> (s.contains(y) || y == p@) by {
                if y == p@ {
                    assert(t[k as int] == y);
                }
                if s.contains(y) {
                    let j = choose|j: int| 0 <= j < s.len() && s[j] == y;
                    if j < k {
                        assert(t[j] == y);
                    } else {
                        assert(t[j + 1] == y);
                    }
                }
                if t.contains(y) {
                    let j = choose|j: int| 0 <= j < t.len() && t[j] == y;
                    if j < k {
                        assert(s[j] == y);
                    } else if j > k {
                        assert(s[j - 1] == y);
                    }
                }
            }
        }
        self.files = files;
    }

    /// The set of the given paths.
    pub fn from_paths(paths: Vec<CanonicalPath>) -> (r: FileSet)
        ensures
            forall|x: Seq<char>| r@.contains(x) <==> path_views(paths@).contains(x),
            r@ == sorted_set(path_views(paths@)),
    {
        let mut r = FileSet::new();
        let mut i: usize = 0;
        while i < paths.len()
            invariant
                i <= paths.len(),
                forall|x: Seq<char>| r@.contains(x) <==> path_views(paths@.take(i as int)).contains(x),
            decreases paths.len() - i,
        {
            let p = paths[i].duplicate();
            r.insert(p);
            proof {
                let a = path_views(paths@.take(i as int));
                let b = path_views(paths@.take(i + 1));
                assert(b =~= a.push(paths@[i as int]@));
                assert forall|x: Seq<char>| b.contains(x) <==> (a.contains(x) || x == paths@[i as int]@) by {
                    if x == paths@[i as int]@ {
                        assert(b[i as int] == x);
                    }
                    if a.contains(x) {
                        let j = choose|j: int| 0 <= j < a.len() && a[j] == x;
                        assert(b[j] == x);
                    }
                    if b.contains(x) {
                        let j = choose|j: int| 0 <= j < b.len() && b[j] == x;
                        if j < i {
                            assert(a[j] == x);
                        }
                    }
                }
            }
            i += 1;
        }
        assert(paths@.take(paths.len() as int) == paths@);
        proof {
            use_type_invariant(&r);
            lemma_sorted_set(r@, path_views(paths@));
        }
        r
    }

    /// The set of the paths of a slice.
    pub fn from_slice(paths: &[CanonicalPath]) -> (r: FileSet)
        ensures
            r@ == sorted_set(path_views(paths@)),
            forall|x: Seq<char>| r@.contains(x) <==> path_views(paths@).contains(x),
    {
        let mut v: Vec<CanonicalPath> = Vec::new();
        let mut i: usize = 0;
        while i < paths.len()
            invariant
                i <= paths@.len(),
                v@.len() == i,
                path_views(v@) == path_views(paths@.take(i as int)),
            decreases paths@.len() - i,
        {
            let ghost before = v@;
            let d = paths[i].duplicate();
            v.push(d);
            assert(v@ == before.push(d));
            assert(path_views(v@) =~= path_views(paths@.take(i + 1))) by {
                assert forall|k: int| 0 <= k < i + 1 implies #[trigger] path_views(v@)[k] == path_views(paths@.take(i + 1))[k] by {
                    if k < i {
                        assert(path_views(before)[k] == path_views(paths@.take(i as int))[k]);
                        assert(v@[k] == before[k]);
                    } else {
                        assert(v@[k] == d);
                    }
                }
            }
            i += 1;
        }
        assert(paths@.take(paths@.len() as int) =~= paths@);
        let r = FileSet::from_paths(v);
        r
    }
}

} // verus!

verus! {

/// The keys of a sequence of entries.
pub open spec fn entry_keys<V>(e: Seq<(String, V)>) -> Seq<Seq<char>> {
    e.map_values(|p: (String, V)| p.0@)
}

/// The value stored under `k` among entries whose keys are distinct.
pub open spec fn entries_get<V>(e: Seq<(String, V)>, k: Seq<char>) -> Option<V> {
    if exists|i: int| 0 <= i < e.len() && e[i].0@ == k {
        Some(e[choose|i: int| 0 <= i < e.len() && e[i].0@ == k].1)
    } else {
        None
    }
}

/// A map from text keys to values, kept sorted by key in the order of
/// `str` so that iteration is deterministic.
#[derive(Debug)]
pub struct TextMap<V> {
    entries: Vec<(String, V)>,
}

impl<V> TextMap<V> {
    #[verifier::type_invariant]
    closed spec fn inv(self) -> bool {
        sorted_distinct(entry_keys(self.entries@))
    }

    /// The entries in increasing key order.
    pub closed spec fn spec_entries(&self) -> Seq<(String, V)> {
        self.entries@
    }

    /// The keys in increasing order.
    pub open spec fn keys(&self) -> Seq<Seq<char>> {
        entry_keys(self.spec_entries())
    }

    /// The value under `k`.
    pub open spec fn spec_get(&self, k: Seq<char>) -> Option<V> {
        entries_get(self.spec_entries(), k)
    }

    /// The empty map.
    pub fn new() -> (r: TextMap<V>)
        ensures
            r.spec_entries() == Seq::<(String, V)>::empty(),
    {
        TextMap { entries: Vec::new() }
    }

    /// The entries in increasing key order; the keys are distinct.
    pub fn entries(&self) -> (r: &Vec<(String, V)>)
        ensures
            r@ == self.spec_entries(),
            sorted_distinct(self.keys()),
    {
        proof {
            use_type_invariant(self);
        }
        &self.entries
    }

    /// Number of entries.
    pub fn len(&self) -> (r: usize)
        ensures
            r == self.spec_entries().len(),
    {
        self.entries.len()
    }

    /// Whether the map is empty.
    pub fn is_empty(&self) -> (r: bool)
        ensures
            r == (self.spec_entries().len() == 0),
    {
        self.entries.len() == 0
    }

    /// Position of the first key not below `x`.
    fn lower_bound(&self, x: &Vec<char>) -> (k: usize)
        ensures
            k <= self.keys().len(),
            forall|i: int| 0 <= i < k ==> seq_lt(self.keys()[i], x@),
            forall|i: int| k <= i < self.keys().len() ==> !seq_lt(self.keys()[i], x@),
    {
        proof {
            use_type_invariant(self);
        }
        let ghost s = self.keys();
        let mut lo: usize = 0;
        let mut hi: usize = self.entries.len();
        while lo < hi
            invariant
                s == self.keys(),
                sorted_distinct(s),
                lo <= hi <= s.len(),
                s.len() == self.entries.len(),
                forall|i: int| 0 <= i < lo ==> seq_lt(s[i], x@),
                forall|i: int| hi <= i < s.len() ==> !seq_lt(s[i], x@),
            decreases hi - lo,
        {
            let mid = lo + (hi - lo) / 2;
            let m = chars_of(self.entries[mid].0.as_str());
            assert(s[mid as int] == m@);
            match compare_text(&m, x) {
                TextOrder::Less => {
                    proof {
                        assert forall|i: int| 0 <= i < mid + 1 implies seq_lt(s[i], x@) by {
                            if i < mid {
                                lemma_lt_transitive(s[i], s[mid as int], x@);
                            }
                        }
                    }
                    lo = mid + 1;
                },
                _ => {
                    proof {
                        assert forall|i: int| mid <= i < s.len() implies !seq_lt(s[i], x@) by {
                            if i > mid && seq_lt(s[i], x@) {
                                lemma_lt_transitive(s[mid as int], s[i], x@);
                            }
                        }
                    }
                    hi = mid;
                },
            }
        }
        lo
    }

    /// Position of the key `x`, if present.
    pub fn position(&self, x: &Vec<char>) -> (r: Option<usize>)
        ensures
            match r {
                Some(i) => i < self.keys().len() && self.keys()[i as int] == x@,
                None => !self.keys().contains(x@),
            },
    {
        proof {
            use_type_invariant(self);
        }
        let k = self.lower_bound(x);
        if k < self.entries.len() {
            let m = chars_of(self.entries[k].0.as_str());
            if crate::text::eq(&m, x) {
                return Some(k);
            }
        }
        proof {
            if self.keys().contains(x@) {
                let j = choose|j: int| 0 <= j < self.keys().len() && self.keys()[j] == x@;
                lemma_lt_irreflexive(x@);
                if j > k {
                    lemma_lt_total(self.keys()[k as int], x@);
                    assert(seq_lt(self.keys()[k as int], self.keys()[j]));
                }
            }
        }
        None
    }

    /// The value under `x`.
    pub fn get(&self, x: &Vec<char>) -> (r: Option<&V>)
        ensures
            match r {
                Some(v) => self.spec_get(x@) == Some(*v),
                None => self.spec_get(x@) is None,
            },
    {
        proof {
            use_type_invariant(self);
            lemma_entries_get(self.spec_entries());
        }
        match self.position(x) {
            Some(i) => {
                proof {
                    assert(self.keys()[i as int] == self.spec_entries()[i as int].0@);
                }
                Some(&self.entries[i].1)
            },
            None => {
                proof {
                    let e = self.spec_entries();
                    if exists|j: int| 0 <= j < e.len() && e[j].0@ == x@ {
                        let j = choose|j: int| 0 <= j < e.len() && e[j].0@ == x@;
                        assert(self.keys()[j] == x@);
                    }
                }
                None
            },
        }
    }

    /// The value under the text `key`.
    pub fn get_str(&self, key: &str) -> (r: Option<&V>)
        ensures
            match r {
                Some(v) => self.spec_get(key@) == Some(*v),
                None => self.spec_get(key@) is None,
            },
    {
        self.get(&chars_of(key))
    }

    /// Whether a value is stored under the text `key`.
    pub fn contains_key(&self, key: &str) -> (r: bool)
        ensures
            r == self.spec_get(key@) is Some,
    {
        self.get(&chars_of(key)).is_some()
    }

    /// Store `v` under `key`, replacing what was there.
    pub fn insert(&mut self, key: String, v: V)
        ensures
            forall|k: Seq<char>|
                #![trigger final(self).spec_get(k)]
                final(self).spec_get(k) == if k == key@ {
                    Some(v)
                } else {
                    old(self).spec_get(k)
                },
            forall|k: Seq<char>|
                #![trigger final(self).keys().contains(k)]
                final(self).keys().contains(k) == (old(self).keys().contains(k) || k == key@),
    {
        proof {
            use_type_invariant(&*self);
            lemma_entries_get(self.spec_entries());
        }
        let x = chars_of(key.as_str());
        let k = self.lower_bound(&x);
        let ghost s = self.keys();
        let ghost e = self.spec_entries();
        let mut entries: Vec<(String, V)> = Vec::new();
        std::mem::swap(&mut entries, &mut self.entries);
        if k < entries.len() && crate::text::eq(&chars_of(entries[k].0.as_str()), &x) {
            proof {
                assert(s[k as int] == e[k as int].0@);
                assert(s.contains(x@));
            }
            entries.set(k, (key, v));
            proof {
                let t = entries@;
                assert(entry_keys(t) =~= s);
                lemma_entries_get(t);
                assert forall|q: Seq<char>| #![trigger entries_get(t, q)]
                    entries_get(t, q) == if q == x@ { Some(v) } else { entries_get(e, q) } by {
                    if q == x@ {
                        assert(t[k as int].0@ == q);
                    } else if exists|i: int| 0 <= i < t.len() && t[i].0@ == q {
                        let i = choose|i: int| 0 <= i < t.len() && t[i].0@ == q;
                        assert(e[i].0@ == q);
                    } else if exists|i: int| 0 <= i < e.len() && e[i].0@ == q {
                        let i = choose|i: int| 0 <= i < e.len() && e[i].0@ == q;
                        assert(t[i].0@ == q);
                    }
                }
            }
            self.entries = entries;
            return;
        }
        proof {
            if k < s.len() {
                lemma_lt_total(s[k as int], x@);
            }
        }
        entries.insert(k, (key, v));
        proof {
            let t = entries@;
            let tk = entry_keys(t);
            assert(tk =~= s.take(k as int).push(x@) + s.skip(k as int));
            assert forall|j: int| k < j < tk.len() implies seq_lt(x@, #[trigger] tk[j]) by {
                if j > k + 1 {
                    lemma_lt_transitive(x@, s[k as int], tk[j]);
                }
            }
            assert forall|i: int, j: int| 0 <= i < j < tk.len() implies seq_lt(tk[i], tk[j]) by {
                if i < k && j > k {
                    lemma_lt_transitive(tk[i], x@, tk[j]);
                }
            }
            lemma_entries_get(t);
            assert forall|q: Seq<char>| #![trigger entries_get(t, q)]
                entries_get(t, q) == if q == x@ { Some(v) } else { entries_get(e, q) } by {
                if q == x@ {
                    assert(t[k as int].0@ == q);
                } else {
                    if exists|i: int| 0 <= i < t.len() && t[i].0@ == q {
                        let i = choose|i: int| 0 <= i < t.len() && t[i].0@ == q;
                        if i < k {
                            assert(e[i].0@ == q);
                        } else {
                            assert(e[i - 1].0@ == q);
                        }
                    }
                    if exists|i: int| 0 <= i < e.len() && e[i].0@ == q {
                        let i = choose|i: int| 0 <= i < e.len() && e[i].0@ == q;
                        if i < k {
                            assert(t[i].0@ == q);
                        } else {
                            assert(t[i + 1].0@ == q);
                        }
                    }
                }
            }
            assert forall|q: Seq<char>| #![trigger tk.contains(q)]
                tk.contains(q) == (s.contains(q) || q == x@) by {
                if q == x@ {
                    assert(tk[k as int] == q);
                }
                if s.contains(q) {
                    let j = choose|j: int| 0 <= j < s.len() && s[j] == q;
                    if j < k {
                        assert(tk[j] == q);
                    } else {
                        assert(tk[j + 1] == q);
                    }
                }
                if tk.contains(q) {
                    let j = choose|j: int| 0 <= j < tk.len() && tk[j] == q;
                    if j < k {
                        assert(s[j] == q);
                    } else if j > k {
                        assert(s[j - 1] == q);
                    }
                }
            }
        }
        self.entries = entries;
    }
}

/// With distinct keys, `entries_get` finds the entry whose key matches.
pub proof fn lemma_entries_get<V>(e: Seq<(String, V)>)
    requires
        sorted_distinct(entry_keys(e)),
    ensures
        forall|i: int| 0 <= i < e.len() ==> #[trigger] entries_get(e, e[i].0@) == Some(e[i].1),
{
    let ks = entry_keys(e);
    assert forall|i: int| 0 <= i < e.len() implies #[trigger] entries_get(e, e[i].0@) == Some(e[i].1) by {
        let k = e[i].0@;
        assert(ks[i] == k);
        assert forall|j: int| 0 <= j < e.len() && e[j].0@ == k implies j == i by {
            assert(ks[j] == e[j].0@);
            lemma_lt_irreflexive(k);
            if j < i {
                assert(seq_lt(ks[j], ks[i]));
            } else if j > i {
                assert(seq_lt(ks[i], ks[j]));
            }
        }
        assert(0 <= i < e.len() && e[i].0@ == k);
    }
}


/// The texts in increasing order, without repeats (what collecting into a
/// `BTreeSet<String>` gives).
pub fn sorted_unique(v: &Vec<Vec<char>>) -> (r: Vec<String>)
    ensures
        sorted_distinct(r@.map_values(|s: String| s@)),
        r@.map_values(|s: String| s@) == sorted_set(crate::text::views(v@)),
{
    let mut set: TextMap<()> = TextMap::new();
    let mut i: usize = 0;
    while i < v.len()
        invariant
            i <= v.len(),
            forall|y: Seq<char>| #[trigger] set.keys().contains(y) <==> exists|m: int| 0 <= m < i && v@[m]@ == y,
        decreases v.len() - i,
    {
        let ghost old_set = set;
        set.insert(string_of(&v[i]), ());
        proof {
            assert forall|y: Seq<char>| #[trigger] set.keys().contains(y) <==> exists|m: int| 0 <= m < i + 1 && v@[m]@ == y by {
                if set.keys().contains(y) && !old_set.keys().contains(y) {
                    assert(v@[i as int]@ == y);
                }
                if exists|m: int| 0 <= m < i + 1 && v@[m]@ == y {
                    let m = choose|m: int| 0 <= m < i + 1 && v@[m]@ == y;
                    if m < i {
                        assert(old_set.keys().contains(y));
                    }
                }
            }
        }
        i += 1;
    }
    let es = set.entries();
    let ghost ks = set.keys();
    let mut out: Vec<String> = Vec::new();
    let mut j: usize = 0;
    while j < es.len()
        invariant
            j <= es@.len(),
            es@ == set.spec_entries(),
            ks == set.keys(),
            ks.len() == es@.len(),
            out@.len() == j,
            out@.map_values(|s: String| s@) == ks.take(j as int),
        decreases es.len() - j,
    {
        let k = string_of(&chars_of(es[j].0.as_str()));
        assert(ks[j as int] == k@);
        let ghost prev = out@;
        let ghost kv = k@;
        out.push(k);
        assert(out@.len() == j + 1);
        assert(out@[j as int]@ == kv);
        assert(forall|m: int| 0 <= m < j ==> out@[m] == prev[m]);
        assert(out@.map_values(|s: String| s@) =~= ks.take(j + 1));
        j += 1;
    }
    proof {
        assert(ks.take(ks.len() as int) =~= ks);
        assert forall|x: Seq<char>| ks.contains(x) <==> crate::text::views(v@).contains(x) by {
            if ks.contains(x) {
                let q = choose|q: int| 0 <= q < v@.len() && v@[q]@ == x;
                assert(crate::text::views(v@)[q] == x);
            }
            if crate::text::views(v@).contains(x) {
                let q = choose|q: int| 0 <= q < v@.len() && crate::text::views(v@)[q] == x;
                assert(v@[q]@ == x);
            }
        }
        lemma_sorted_set(ks, crate::text::views(v@));
    }
    out
}


/// Where `x` goes in the sorted `r`: before the first element above it.
pub open spec fn insert_pos(r: Seq<Seq<char>>, x: Seq<char>) -> int
    decreases r.len(),
{
    if r.len() == 0 {
        0
    } else if seq_lt(x, r[0]) {
        0
    } else {
        1 + insert_pos(r.drop_first(), x)
    }
}

/// The texts sorted in the order of `str`, repeats kept: each inserted in
/// turn before the first element above it.
pub open spec fn sort_spec(s: Seq<Seq<char>>) -> Seq<Seq<char>>
    decreases s.len(),
{
    if s.len() == 0 {
        Seq::empty()
    } else {
        let r = sort_spec(s.drop_last());
        r.insert(insert_pos(r, s.last()), s.last())
    }
}

/// `insert_pos` stays within the sequence.
pub proof fn lemma_insert_pos_range(r: Seq<Seq<char>>, x: Seq<char>)
    ensures
        0 <= insert_pos(r, x) <= r.len(),
    decreases r.len(),
{
    if r.len() > 0 {
        lemma_insert_pos_range(r.drop_first(), x);
    }
}

/// In the order of `str`, each text no greater than the ones after it.
pub open spec fn sorted_le(r: Seq<Seq<char>>) -> bool {
    forall|i: int, j: int| 0 <= i < j < r.len() ==> !seq_lt(#[trigger] r[j], #[trigger] r[i])
}

/// Below `b` and not above `c` puts `a` below `c`.
proof fn lemma_lt_le(a: Seq<char>, b: Seq<char>, c: Seq<char>)
    requires
        seq_lt(a, b),
        !seq_lt(c, b),
    ensures
        seq_lt(a, c),
{
    lemma_lt_total(b, c);
    if b != c {
        lemma_lt_transitive(a, b, c);
    }
}

/// In a sorted sequence, what comes before `insert_pos` is not above `x`
/// and what comes from it on is above `x`.
proof fn lemma_insert_pos_split(r: Seq<Seq<char>>, x: Seq<char>)
    requires
        sorted_le(r),
    ensures
        0 <= insert_pos(r, x) <= r.len(),
        forall|i: int| 0 <= i < insert_pos(r, x) ==> !seq_lt(x, #[trigger] r[i]),
        forall|i: int| insert_pos(r, x) <= i < r.len() ==> seq_lt(x, #[trigger] r[i]),
    decreases r.len(),
{
    if r.len() > 0 {
        if seq_lt(x, r[0]) {
            assert forall|i: int| 0 <= i < r.len() implies seq_lt(x, #[trigger] r[i]) by {
                if i > 0 {
                    lemma_lt_le(x, r[0], r[i]);
                }
            }
        } else {
            let t = r.drop_first();
            assert(sorted_le(t)) by {
                assert forall|i: int, j: int| 0 <= i < j < t.len() implies !seq_lt(#[trigger] t[j], #[trigger] t[i]) by {
                    assert(t[i] == r[i + 1] && t[j] == r[j + 1]);
                }
            }
            lemma_insert_pos_split(t, x);
            assert forall|i: int| 0 <= i < insert_pos(r, x) implies !seq_lt(x, #[trigger] r[i]) by {
                if i > 0 {
                    assert(r[i] == t[i - 1]);
                }
            }
            assert forall|i: int| insert_pos(r, x) <= i < r.len() implies seq_lt(x, #[trigger] r[i]) by {
                assert(r[i] == t[i - 1]);
            }
        }
    }
}

/// Inserting at `insert_pos` keeps a sorted sequence sorted.
proof fn lemma_insert_sorted(r: Seq<Seq<char>>, x: Seq<char>)
    requires
        sorted_le(r),
    ensures
        sorted_le(r.insert(insert_pos(r, x), x)),
{
    lemma_insert_pos_split(r, x);
    let p = insert_pos(r, x);
    let q = r.insert(p, x);
    assert forall|i: int, j: int| 0 <= i < j < q.len() implies !seq_lt(#[trigger] q[j], #[trigger] q[i]) by {
        lemma_lt_irreflexive(x);
        if j < p {
            assert(q[i] == r[i] && q[j] == r[j]);
        } else if j == p {
            assert(q[j] == x && q[i] == r[i]);
            lemma_lt_total(x, r[i]);
        } else if i < p {
            assert(q[i] == r[i] && q[j] == r[j - 1]);
            assert(!seq_lt(x, r[i]));
            lemma_lt_total(x, r[i]);
            if seq_lt(r[j - 1], r[i]) {
                if x == r[i] {
                } else {
                    lemma_lt_transitive(r[i], x, r[j - 1]);
                    lemma_lt_total(r[i], r[j - 1]);
                }
            }
        } else if i == p {
            assert(q[i] == x && q[j] == r[j - 1]);
            lemma_lt_total(x, r[j - 1]);
        } else {
            assert(q[i] == r[i - 1] && q[j] == r[j - 1]);
        }
    }
}

/// Sorting gives a sorted sequence of the same length holding the same texts.
pub proof fn lemma_sort_spec_sorted(s: Seq<Seq<char>>)
    ensures
        sorted_le(sort_spec(s)),
        sort_spec(s).len() == s.len(),
        forall|x: Seq<char>| sort_spec(s).contains(x) <==> s.contains(x),
    decreases s.len(),
{
    if s.len() > 0 {
        let t = s.drop_last();
        lemma_sort_spec_sorted(t);
        let r = sort_spec(t);
        lemma_insert_sorted(r, s.last());
        lemma_insert_pos_range(r, s.last());
        lemma_insert_contains(r, insert_pos(r, s.last()), s.last());
        lemma_drop_last_contains(s);
    }
}

/// What an insertion holds: what was there, and the inserted text.
proof fn lemma_insert_contains(r: Seq<Seq<char>>, p: int, x: Seq<char>)
    requires
        0 <= p <= r.len(),
    ensures
        forall|y: Seq<char>| #[trigger] r.insert(p, x).contains(y) <==> (r.contains(y) || y == x),
{
    let q = r.insert(p, x);
    assert forall|y: Seq<char>| #[trigger] q.contains(y) <==> (r.contains(y) || y == x) by {
        if q.contains(y) {
            let k = choose|k: int| 0 <= k < q.len() && q[k] == y;
            if k < p {
                assert(r[k] == y);
            } else if k > p {
                assert(r[k - 1] == y);
            }
        }
        if r.contains(y) {
            let k = choose|k: int| 0 <= k < r.len() && r[k] == y;
            if k < p {
                assert(q[k] == y);
            } else {
                assert(q[k + 1] == y);
            }
        }
        if y == x {
            assert(q[p] == y);
        }
    }
}

/// What a sequence holds: what all but its last element hold, and the last.
proof fn lemma_drop_last_contains(s: Seq<Seq<char>>)
    requires
        s.len() > 0,
    ensures
        forall|y: Seq<char>| #[trigger] s.contains(y) <==> (s.drop_last().contains(y) || y == s.last()),
{
    let t = s.drop_last();
    assert forall|y: Seq<char>| #[trigger] s.contains(y) <==> (t.contains(y) || y == s.last()) by {
        if s.contains(y) {
            let k = choose|k: int| 0 <= k < s.len() && s[k] == y;
            if k < s.len() - 1 {
                assert(t[k] == y);
            }
        }
        if t.contains(y) {
            let k = choose|k: int| 0 <= k < t.len() && t[k] == y;
            assert(s[k] == y);
        }
    }
}

/// The strings sorted in the order of `str` (`slice::sort`).
pub fn sort_strings(v: &Vec<String>) -> (r: Vec<String>)
    ensures
        r@.map_values(|s: String| s@) == sort_spec(v@.map_values(|s: String| s@)),
{
    let ghost sv = v@.map_values(|s: String| s@);
    let mut out: Vec<String> = Vec::new();
    let mut i: usize = 0;
    while i < v.len()
        invariant
            i <= v@.len(),
            sv == v@.map_values(|s: String| s@),
            out@.map_values(|s: String| s@) == sort_spec(sv.take(i as int)),
        decreases v.len() - i,
    {
        let x = chars_of(v[i].as_str());
        let ghost rv = out@.map_values(|s: String| s@);
        let mut j: usize = 0;
        assert(rv.skip(0) =~= rv);
        while j < out.len()
            invariant
                j <= out@.len(),
                rv == out@.map_values(|s: String| s@),
                rv.len() == out@.len(),
                insert_pos(rv, x@) == j + insert_pos(rv.skip(j as int), x@),
            ensures
                j <= out@.len(),
                rv == out@.map_values(|s: String| s@),
                insert_pos(rv, x@) == j + insert_pos(rv.skip(j as int), x@),
                j == out@.len() || seq_lt(x@, rv[j as int]),
            decreases out.len() - j,
        {
            let y = chars_of(out[j].as_str());
            assert(rv.skip(j as int)[0] == y@);
            if compare_text(&x, &y) == TextOrder::Less {
                break;
            }
            assert(rv.skip(j as int).drop_first() =~= rv.skip(j + 1));
            j += 1;
        }
        proof {
            if j == out@.len() {
                assert(rv.skip(j as int) =~= Seq::<Seq<char>>::empty());
            } else {
                assert(rv.skip(j as int)[0] == rv[j as int]);
            }
            assert(insert_pos(rv, x@) == j);
            lemma_insert_pos_range(rv, x@);
            assert(sv.take(i + 1).drop_last() =~= sv.take(i as int));
            assert(sv.take(i + 1).last() == x@);
        }
        let xs = string_of(&x);
        out.insert(j, xs);
        assert(out@.map_values(|s: String| s@) =~= rv.insert(j as int, x@));
        i += 1;
    }
    assert(sv.take(v@.len() as int) =~= sv);
    out
}

} // verus!

verus! {

/// The package manager that declares a workspace.
#[derive(Clone, Copy, Debug, PartialEq, Eq, Structural)]
pub enum WorkspaceKind {
    Npm,
}

/// One package of a workspace.
#[derive(Clone, Debug)]
pub struct WorkspaceMember {
    /// Package name, such as `@app/auth`.
    pub name: String,
    /// Package directory, relative to the project root.
    pub path: String,
    /// Entry file of the package, relative to the project root.
    pub entry_point: String,
}

/// The packages of a monorepo workspace.
#[derive(Clone, Debug)]
pub struct WorkspaceInfo {
    pub kind: WorkspaceKind,
    pub members: Vec<WorkspaceMember>,
}

} // verus!

verus! {

/// Role of a file in the project.
#[derive(Clone, Copy, Debug, PartialEq, Eq, Structural)]
pub enum FileType {
    Source,
    Test,
    TypeDef,
}

/// Architectural layer of a file, in the order used to break ties.
#[derive(Clone, Copy, Debug, PartialEq, Eq, Structural)]
pub enum ArchLayer {
    Api,
    Service,
    Data,
    Util,
    Config,
}

/// Rank of a layer in the tie-breaking order.
pub open spec fn layer_rank(l: ArchLayer) -> nat {
    match l {
        ArchLayer::Api => 0,
        ArchLayer::Service => 1,
        ArchLayer::Data => 2,
        ArchLayer::Util => 3,
        ArchLayer::Config => 4,
    }
}

/// Name of a layer.
pub open spec fn layer_name(l: ArchLayer) -> Seq<char> {
    match l {
        ArchLayer::Api => "api"@,
        ArchLayer::Service => "service"@,
        ArchLayer::Data => "data"@,
        ArchLayer::Util => "util"@,
        ArchLayer::Config => "config"@,
    }
}

impl ArchLayer {
    /// The rank of the layer in the tie-breaking order.
    pub fn rank(&self) -> (r: u8)
        ensures
            r as nat == layer_rank(*self),
    {
        match self {
            ArchLayer::Api => 0,
            ArchLayer::Service => 1,
            ArchLayer::Data => 2,
            ArchLayer::Util => 3,
            ArchLayer::Config => 4,
        }
    }

    /// The layer's name.
    pub fn as_str(&self) -> (r: &'static str)
        ensures
            r@ == layer_name(*self),
    {
        match self {
            ArchLayer::Api => "api",
            ArchLayer::Service => "service",
            ArchLayer::Data => "data",
            ArchLayer::Util => "util",
            ArchLayer::Config => "config",
        }
    }
}

/// Identifier of a cluster of files.
#[derive(Debug)]
pub struct ClusterId {
    pub id: String,
}

impl ClusterId {
    /// A cluster identifier with the given name.
    pub fn new(s: &str) -> (r: ClusterId)
        ensures
            r.id@ == s@,
    {
        ClusterId { id: string_of(&chars_of(s)) }
    }

    /// The identifier as text.
    pub fn as_str(&self) -> (r: &str)
        ensures
            r@ == self.id@,
    {
        self.id.as_str()
    }
}

impl Clone for ClusterId {
    fn clone(&self) -> (r: Self)
        ensures
            r.id@ == self.id@,
    {
        ClusterId { id: self.id.clone() }
    }
}

/// A group of files that belong together.
#[derive(Clone, Debug)]
pub struct Cluster {
    pub files: Vec<CanonicalPath>,
    pub file_count: usize,
    pub internal_edges: usize,
    pub external_edges: usize,
}

/// What the graph knows of one file.
#[derive(Clone, Debug)]
pub struct FileNode {
    pub file_type: FileType,
    pub layer: ArchLayer,
    pub fsd_layer: Option<String>,
    pub arch_depth: u32,
    pub lines: u32,
    pub hash: String,
    pub exports: Vec<String>,
    pub cluster: ClusterId,
    pub symbols: Vec<crate::parser::traits::SymbolDef>,
}


/// `Path::parent` on project paths: the text before the last `/` (the root
/// `/` itself when that is the only one), or `""` for a bare name; nothing
/// for `""` and `/`.
pub open spec fn dir_parent_spec(s: Seq<char>) -> Option<Seq<char>> {
    if s.len() == 0 || s == seq!['/'] {
        None
    } else {
        match rfind_char_spec(s, '/') {
            Some(i) => if i == 0 {
                Some(seq!['/'])
            } else {
                Some(s.take(i))
            },
            None => Some(Seq::empty()),
        }
    }
}

/// `dir_parent_spec`.
pub fn dir_parent(s: &Vec<char>) -> (r: Option<Vec<char>>)
    ensures
        match r {
            Some(p) => dir_parent_spec(s@) == Some(p@) && p@.len() < s@.len(),
            None => dir_parent_spec(s@) is None,
        },
{
    if s.len() == 0 || (s.len() == 1 && s[0] == '/') {
        assert(s.len() == 1 ==> s@ =~= seq!['/']);
        return None;
    }
    assert(s@ != seq!['/']);
    match rfind_char(s, '/') {
        Some(i) => {
            if i == 0 {
                let mut v: Vec<char> = Vec::new();
                v.push('/');
                assert(v@ =~= seq!['/']);
                Some(v)
            } else {
                Some(slice(s, 0, i))
            }
        },
        None => Some(Vec::new()),
    }
}

/// A path names the root when it begins with `/`.
pub open spec fn is_abs_path(s: Seq<char>) -> bool {
    s.len() > 0 && s[0] == '/'
}

/// The pieces between `/` that `Path::components` keeps: empty pieces go,
/// and so does `.` everywhere but at the very start.
pub open spec fn kept_parts(pieces: Seq<Seq<char>>) -> Seq<Seq<char>>
    decreases pieces.len(),
{
    if pieces.len() == 0 {
        Seq::empty()
    } else {
        let p = pieces.last();
        kept_parts(pieces.drop_last()) + if p.len() == 0 || (p == "."@ && pieces.len() > 1) {
            Seq::empty()
        } else {
            seq![p]
        }
    }
}

/// The components of a path after the root, as `Path::components` gives
/// them.
pub open spec fn path_parts(s: Seq<char>) -> Seq<Seq<char>> {
    kept_parts(split_spec(s, '/'))
}

/// A text that stands for a path given by its root flag and components:
/// NUL before the components of a rooted path and between components. Two
/// paths have the same components exactly when these texts are equal, and
/// text order on them orders paths component by component, a path before
/// its extensions and the rooted before the relative.
pub open spec fn parts_key(abs: bool, parts: Seq<Seq<char>>) -> Seq<char> {
    (if abs { seq!['\0'] } else { Seq::<char>::empty() }) + join_spec(parts, '\0')
}

/// `parts_key` of a path's own components.
pub open spec fn path_order_key(s: Seq<char>) -> Seq<char> {
    parts_key(is_abs_path(s), path_parts(s))
}

/// `path_parts`.
pub fn path_parts_exec(s: &Vec<char>) -> (r: Vec<Vec<char>>)
    ensures
        views(r@) == path_parts(s@),
{
    let pieces = split_char(s, '/');
    let ghost ps = views(pieces@);
    let mut r: Vec<Vec<char>> = Vec::new();
    let mut i: usize = 0;
    while i < pieces.len()
        invariant
            i <= pieces@.len(),
            ps == views(pieces@),
            ps == split_spec(s@, '/'),
            views(r@) == kept_parts(ps.take(i as int)),
        decreases pieces.len() - i,
    {
        proof {
            assert(ps.take(i + 1).drop_last() =~= ps.take(i as int));
            assert(ps.take(i + 1).last() == pieces@[i as int]@);
        }
        let p = &pieces[i];
        let dot = p.len() == 1 && p[0] == '.';
        proof {
            if p@ == "."@ {
                reveal_strlit(".");
                assert(p@.len() == 1 && p@[0] == '.');
            }
            if dot {
                reveal_strlit(".");
                assert(p@ =~= "."@);
            }
        }
        if !(p.len() == 0 || (dot && i > 0)) {
            let ghost before = views(r@);
            r.push(crate::text::slice(p, 0, p.len()));
            proof {
                assert(p@.subrange(0, p@.len() as int) =~= p@);
                assert(views(r@) =~= before + seq![p@]);
            }
        } else {
            assert(kept_parts(ps.take(i + 1)) =~= kept_parts(ps.take(i as int)));
        }
        i += 1;
    }
    assert(ps.take(ps.len() as int) =~= ps);
    r
}

/// `parts_key`.
pub fn parts_key_exec(abs: bool, parts: &Vec<Vec<char>>, n: usize) -> (r: Vec<char>)
    requires
        n <= parts@.len(),
    ensures
        r@ == parts_key(abs, views(parts@).take(n as int)),
{
    let mut first: Vec<Vec<char>> = Vec::new();
    let mut i: usize = 0;
    while i < n
        invariant
            i <= n <= parts@.len(),
            views(first@) == views(parts@).take(i as int),
        decreases n - i,
    {
        let ghost before = views(first@);
        let piece = crate::text::slice(&parts[i], 0, parts[i].len());
        proof {
            assert(parts@[i as int]@.subrange(0, parts@[i as int]@.len() as int) =~= parts@[i as int]@);
        }
        first.push(piece);
        proof {
            assert(views(first@) =~= before.push(piece@));
            assert(views(first@) =~= views(parts@).take(i + 1));
        }
        i += 1;
    }
    let body = crate::text::join(&first, '\0');
    let mut r: Vec<char> = Vec::new();
    if abs {
        r.push('\0');
    }
    crate::text::push_all(&mut r, &body);
    proof {
        if abs {
            assert(r@ =~= seq!['\0'] + body@);
        } else {
            assert(r@ =~= Seq::<char>::empty() + body@);
        }
    }
    r
}

/// `path_order_key`.
pub fn path_order_key_exec(s: &Vec<char>) -> (r: Vec<char>)
    ensures
        r@ == path_order_key(s@),
{
    let parts = path_parts_exec(s);
    let abs = s.len() > 0 && s[0] == '/';
    let r = parts_key_exec(abs, &parts, parts.len());
    assert(views(parts@).take(parts@.len() as int) =~= views(parts@));
    r
}

/// `Path::join`: `p` when it is absolute or `dir` is empty, otherwise `dir`
/// and `p` with one `/` between them.
pub open spec fn path_join_spec(dir: Seq<char>, p: Seq<char>) -> Seq<char> {
    if (p.len() > 0 && p[0] == '/') || dir.len() == 0 {
        p
    } else if dir.last() == '/' {
        dir + p
    } else {
        dir + seq!['/'] + p
    }
}

/// `path_join_spec`.
pub fn path_join(dir: &Vec<char>, p: &Vec<char>) -> (r: Vec<char>)
    ensures
        r@ == path_join_spec(dir@, p@),
{
    if (p.len() > 0 && p[0] == '/') || dir.len() == 0 {
        slice(p, 0, p.len())
    } else {
        let mut out = slice(dir, 0, dir.len());
        if dir[dir.len() - 1] != '/' {
            out.push('/');
        }
        crate::text::push_all(&mut out, p);
        proof {
            assert(dir@.subrange(0, dir@.len() as int) =~= dir@);
            assert(out@ =~= path_join_spec(dir@, p@));
        }
        out
    }
}

/// File `f` lies directly in the directory `prefix` names (which ends in
/// `/`) and ends with `suffix`.
pub open spec fn is_direct_child(f: Seq<char>, prefix: Seq<char>, suffix: Seq<char>) -> bool {
    &&& prefix.is_prefix_of(f)
    &&& suffix.is_suffix_of(f)
    &&& !f.skip(prefix.len() as int).contains('/')
}

/// The first file, in the set's order, that lies directly under `prefix`
/// and ends with `suffix`.
pub open spec fn first_direct_child(files: Seq<Seq<char>>, prefix: Seq<char>, suffix: Seq<char>) -> Option<Seq<char>>
    decreases files.len(),
{
    if files.len() == 0 {
        None
    } else if is_direct_child(files[0], prefix, suffix) {
        Some(files[0])
    } else {
        first_direct_child(files.drop_first(), prefix, suffix)
    }
}

impl FileSet {
    /// The first file, in order, directly under `prefix` with suffix `suffix`.
    pub fn find_direct_child(&self, prefix: &Vec<char>, suffix: &Vec<char>) -> (r: Option<CanonicalPath>)
        ensures
            match r {
                Some(p) => first_direct_child(self@, prefix@, suffix@) == Some(p@),
                None => first_direct_child(self@, prefix@, suffix@) is None,
            },
    {
        let files = self.paths();
        let ghost fs = self@;
        assert(fs.skip(0) =~= fs);
        let mut i: usize = 0;
        while i < files.len()
            invariant
                0 <= i <= files@.len(),
                path_views(files@) == fs,
                fs == self@,
                first_direct_child(fs, prefix@, suffix@) == first_direct_child(fs.skip(i as int), prefix@, suffix@),
            decreases files.len() - i,
        {
            let f = files[i].chars();
            assert(fs.skip(i as int)[0] == f@);
            assert(fs.skip(i as int).drop_first() =~= fs.skip(i + 1));
            if crate::text::starts_with(&f, prefix) && crate::text::ends_with(&f, suffix) {
                let rest = slice(&f, prefix.len(), f.len());
                assert(rest@ == f@.skip(prefix@.len() as int));
                if crate::text::find_char(&rest, '/').is_none() {
                    proof {
                        crate::text::lemma_find_char(rest@, '/');
                        assert(!rest@.contains('/')) by {
                            if rest@.contains('/') {
                                let k = choose|k: int| 0 <= k < rest@.len() && rest@[k] == '/';
                            }
                        }
                    }
                    assert(first_direct_child(fs.skip(i as int), prefix@, suffix@) == Some(f@));
                    return Some(files[i].duplicate());
                } else {
                    proof {
                        crate::text::lemma_find_char(rest@, '/');
                        let k = crate::text::find_char_spec(rest@, '/')->0;
                        assert(rest@[k] == '/');
                    }
                }
            }
            i += 1;
        }
        assert(fs.skip(i as int).len() == 0);
        None
    }
}
} // verus!
