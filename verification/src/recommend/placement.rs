//! Where a new file should go, from the files it will depend on and the
//! files that will depend on it.
use vstd::prelude::*;
use crate::model::{
    canon_spec, extension_spec, layer_name, layer_rank, path_views, sorted_set, ArchLayer,
    CanonicalPath, Cluster, FileNode, FileSet, TextMap,
};
use crate::parser::traits::strings_view;
use crate::recommend::types::{DataQuality, PlacementAlternative, PlacementSuggestion};
use crate::text::{
    chars_of, dec, dec_spec, is_ascii_alnum, join, join_spec, lemma_lt_irreflexive, lemma_lt_total,
    lemma_lt_transitive, push_all, rfind_char, rfind_char_spec, seq_lt, slice, split_char,
    split_spec, string_of, trim_end_char, trim_end_char_spec, views,
};

verus! {

// ---------------------------------------------------------------------------
// Trusted: str::to_lowercase
// ---------------------------------------------------------------------------

/// The result of `str::to_lowercase` (Unicode lower case mapping).
pub uninterp spec fn lowercase_spec(s: Seq<char>) -> Seq<char>;

/// No ASCII capital letter occurs in `s`.
pub open spec fn no_ascii_upper(s: Seq<char>) -> bool {
    forall|i: int| 0 <= i < s.len() ==> !('A' <= #[trigger] s[i] <= 'Z')
}

/// Every character of `s` is ASCII.
pub open spec fn all_ascii(s: Seq<char>) -> bool {
    forall|i: int| 0 <= i < s.len() ==> #[trigger] s[i] <= '\u{7f}'
}

/// The ASCII lower case of `c`: `A` to `Z` become `a` to `z`.
pub open spec fn ascii_lower_char(c: char) -> char {
    if 'A' <= c <= 'Z' {
        ((c as int) + 32) as char
    } else {
        c
    }
}

/// `str::to_lowercase`: the lower case form of `s`, as named by
/// `lowercase_spec`; being lower case, it holds no ASCII capital letter,
/// and for ASCII text it is the ASCII lower case, character by character.
#[verifier::external_body]
pub(crate) fn to_lowercase(s: &str) -> (r: String)
    ensures
        r@ == lowercase_spec(s@),
        no_ascii_upper(r@),
        all_ascii(s@) ==> r@ == s@.map_values(|c: char| ascii_lower_char(c)),
{
    s.to_lowercase()
}

// ---------------------------------------------------------------------------
// File names
// ---------------------------------------------------------------------------

/// ASCII letters and digits kept, every run of other characters made one
/// `_`, with no `_` at the start; the flag says the text ends in `_` (or is
/// still empty).
pub open spec fn collapse(s: Seq<char>) -> (Seq<char>, bool)
    decreases s.len(),
{
    if s.len() == 0 {
        (Seq::empty(), true)
    } else {
        let (r, u) = collapse(s.drop_last());
        let c = s.last();
        if is_ascii_alnum(c) {
            (r.push(c), false)
        } else if !u {
            (r.push('_'), true)
        } else {
            (r, u)
        }
    }
}

/// A file name from already lower-cased text: non-alphanumerics collapsed to
/// single `_`, no `_` at the ends, at most 64 characters, `new_module` when
/// nothing is left.
pub open spec fn sanitize_spec(lowered: Seq<char>) -> Seq<char> {
    let r = trim_end_char_spec(collapse(lowered).0, '_');
    let r2 = if r.len() > 64 {
        trim_end_char_spec(r.take(64), '_')
    } else {
        r
    };
    if r2.len() == 0 {
        "new_module"@
    } else {
        r2
    }
}

/// A character of a generated file name: a lower-case ASCII letter, a
/// digit or `_`.
pub open spec fn is_filename_char(c: char) -> bool {
    ('a' <= c <= 'z') || ('0' <= c <= '9') || c == '_'
}

proof fn lemma_collapse_chars(s: Seq<char>)
    requires
        no_ascii_upper(s),
    ensures
        forall|i: int| 0 <= i < collapse(s).0.len() ==> is_filename_char(#[trigger] collapse(s).0[i]),
    decreases s.len(),
{
    if s.len() > 0 {
        let t = s.drop_last();
        assert forall|i: int| 0 <= i < t.len() implies !('A' <= #[trigger] t[i] <= 'Z') by {
            assert(t[i] == s[i]);
        }
        lemma_collapse_chars(t);
        assert(!('A' <= s[s.len() - 1] <= 'Z'));
        let (r, u) = collapse(t);
        let c = s.last();
        if is_ascii_alnum(c) {
            assert forall|i: int| 0 <= i < r.push(c).len() implies is_filename_char(#[trigger] r.push(c)[i]) by {
                if i < r.len() {
                    assert(r.push(c)[i] == r[i]);
                }
            }
        } else if !u {
            assert forall|i: int| 0 <= i < r.push('_').len() implies is_filename_char(#[trigger] r.push('_')[i]) by {
                if i < r.len() {
                    assert(r.push('_')[i] == r[i]);
                }
            }
        }
    }
}

proof fn lemma_trim_end_prefix(s: Seq<char>, c: char)
    ensures
        trim_end_char_spec(s, c).len() <= s.len(),
        forall|i: int| 0 <= i < trim_end_char_spec(s, c).len() ==> #[trigger] trim_end_char_spec(s, c)[i] == s[i],
    decreases s.len(),
{
    if s.len() > 0 && s.last() == c {
        lemma_trim_end_prefix(s.drop_last(), c);
        assert forall|i: int| 0 <= i < trim_end_char_spec(s, c).len() implies #[trigger] trim_end_char_spec(s, c)[i]
            == s[i] by {
            assert(trim_end_char_spec(s, c) == trim_end_char_spec(s.drop_last(), c));
            assert(s.drop_last()[i] == s[i]);
        }
    }
}

/// A file name made from text with no ASCII capital is not empty, holds at
/// most 64 characters, and each is a lower-case ASCII letter, a digit or `_`.
pub proof fn lemma_sanitize_chars(lowered: Seq<char>)
    requires
        no_ascii_upper(lowered),
    ensures
        0 < sanitize_spec(lowered).len() <= 64,
        forall|i: int| 0 <= i < sanitize_spec(lowered).len() ==> is_filename_char(#[trigger] sanitize_spec(lowered)[i]),
{
    lemma_collapse_chars(lowered);
    let c = collapse(lowered).0;
    lemma_trim_end_prefix(c, '_');
    let r = trim_end_char_spec(c, '_');
    assert forall|i: int| 0 <= i < r.len() implies is_filename_char(#[trigger] r[i]) by {
        assert(r[i] == c[i]);
    }
    if r.len() > 64 {
        lemma_trim_end_prefix(r.take(64), '_');
        let r2 = trim_end_char_spec(r.take(64), '_');
        assert forall|i: int| 0 <= i < r2.len() implies is_filename_char(#[trigger] r2[i]) by {
            assert(r2[i] == r.take(64)[i]);
        }
    }
    reveal_strlit("new_module");
}

/// A file name for a module described by `description`.
pub open spec fn filename_spec(description: Seq<char>) -> Seq<char> {
    sanitize_spec(lowercase_spec(description))
}

// ---------------------------------------------------------------------------
// Common prefix and extension of a cluster's files
// ---------------------------------------------------------------------------

/// The directory segments of a path with a `/`.
pub open spec fn dir_parts(p: Seq<char>) -> Option<Seq<Seq<char>>> {
    match rfind_char_spec(p, '/') {
        Some(i) => Some(split_spec(p.take(i), '/')),
        None => None,
    }
}

/// The directory segments of every path that has a directory.
pub open spec fn dirs_of(ps: Seq<Seq<char>>) -> Seq<Seq<Seq<char>>>
    decreases ps.len(),
{
    if ps.len() == 0 {
        Seq::empty()
    } else {
        dirs_of(ps.drop_last()) + match dir_parts(ps.last()) {
            Some(d) => seq![d],
            None => Seq::empty(),
        }
    }
}

/// Every directory list has segment `i`, equal to that of the first.
pub open spec fn agree_at(dirs: Seq<Seq<Seq<char>>>, i: int) -> bool {
    forall|j: int| 0 <= j < dirs.len() ==> #[trigger] dirs[j].len() > i && dirs[j][i] == dirs[0][i]
}

/// The number of leading segments, from `i` on, on which all agree.
pub open spec fn agree_len(dirs: Seq<Seq<Seq<char>>>, i: int) -> int
    decreases dirs[0].len() - i,
{
    if dirs.len() == 0 || i < 0 || i >= dirs[0].len() || !agree_at(dirs, i) {
        i
    } else {
        agree_len(dirs, i + 1)
    }
}

/// The longest directory prefix shared by the paths, ending in `/`, or
/// nothing.
pub open spec fn common_prefix_spec(ps: Seq<Seq<char>>) -> Seq<char> {
    let dirs = dirs_of(ps);
    if dirs.len() == 0 {
        Seq::empty()
    } else {
        let l = agree_len(dirs, 0);
        if l <= 0 {
            Seq::empty()
        } else {
            join_spec(dirs[0].take(l), '/').push('/')
        }
    }
}

/// The extensions of the paths that have one.
pub open spec fn exts_of(ps: Seq<Seq<char>>) -> Seq<Seq<char>>
    decreases ps.len(),
{
    if ps.len() == 0 {
        Seq::empty()
    } else {
        exts_of(ps.drop_last()) + match extension_spec(ps.last()) {
            Some(e) => seq![e],
            None => Seq::empty(),
        }
    }
}

/// Occurrences of `x` in `s`.
pub open spec fn occ<A>(s: Seq<A>, x: A) -> nat
    decreases s.len(),
{
    if s.len() == 0 {
        0
    } else {
        occ(s.drop_last(), x) + if s.last() == x {
            1nat
        } else {
            0nat
        }
    }
}

/// `a` ranks before `b` in `s`: more occurrences, or as many and smaller.
pub open spec fn beats(s: Seq<Seq<char>>, a: Seq<char>, b: Seq<char>) -> bool {
    occ(s, a) > occ(s, b) || (occ(s, a) == occ(s, b) && seq_lt(a, b))
}

/// `e` is the best-ranked element of `s` outside `ex`.
pub open spec fn is_top(s: Seq<Seq<char>>, ex: Seq<Seq<char>>, e: Seq<char>) -> bool {
    &&& s.contains(e)
    &&& !ex.contains(e)
    &&& forall|f: Seq<char>| s.contains(f) && !ex.contains(f) && f != e ==> beats(s, e, f)
}

/// The best-ranked element of `s` outside `ex`, if there is one.
pub open spec fn top_of(s: Seq<Seq<char>>, ex: Seq<Seq<char>>) -> Option<Seq<char>> {
    if exists|e: Seq<char>| is_top(s, ex, e) {
        Some(choose|e: Seq<char>| is_top(s, ex, e))
    } else {
        None
    }
}

/// The `k` best-ranked distinct elements of `s`, best first.
pub open spec fn ranking(s: Seq<Seq<char>>, k: nat) -> Seq<Seq<char>>
    decreases k,
{
    if k == 0 {
        Seq::empty()
    } else {
        let prev = ranking(s, (k - 1) as nat);
        match top_of(s, prev) {
            Some(b) => prev.push(b),
            None => prev,
        }
    }
}

/// The most frequent extension among the paths (the smallest on ties), or `rs`.
pub open spec fn common_ext_spec(ps: Seq<Seq<char>>) -> Seq<char> {
    match top_of(exts_of(ps), Seq::empty()) {
        Some(e) => e,
        None => "rs"@,
    }
}

// ---------------------------------------------------------------------------
// Layers
// ---------------------------------------------------------------------------

/// Layer `a` ranks before `b` in `s`: more occurrences, or as many and earlier.
pub open spec fn layer_beats(s: Seq<ArchLayer>, a: ArchLayer, b: ArchLayer) -> bool {
    occ(s, a) > occ(s, b) || (occ(s, a) == occ(s, b) && layer_rank(a) < layer_rank(b))
}

/// `l` is the most frequent layer of `s`, the earliest on ties.
pub open spec fn is_top_layer(s: Seq<ArchLayer>, l: ArchLayer) -> bool {
    s.contains(l) && forall|m: ArchLayer| s.contains(m) && m != l ==> layer_beats(s, l, m)
}

/// The name of the most frequent layer, or `unknown`.
pub open spec fn layer_name_spec(s: Seq<ArchLayer>) -> Seq<char> {
    if exists|l: ArchLayer| is_top_layer(s, l) {
        layer_name(choose|l: ArchLayer| is_top_layer(s, l))
    } else {
        "unknown"@
    }
}

// ---------------------------------------------------------------------------
// The suggestion
// ---------------------------------------------------------------------------

/// The node of a path known to the map.
pub open spec fn node_of(nodes: &TextMap<FileNode>, p: Seq<char>) -> FileNode {
    nodes.spec_get(p)->0
}

/// The paths of `s` that the graph knows, in order.
pub open spec fn present(s: Seq<Seq<char>>, nodes: &TextMap<FileNode>) -> Seq<Seq<char>>
    decreases s.len(),
{
    if s.len() == 0 {
        Seq::empty()
    } else {
        present(s.drop_last(), nodes) + if nodes.spec_get(s.last()) is Some {
            seq![s.last()]
        } else {
            Seq::empty()
        }
    }
}

/// Largest of the values, or 0.
pub open spec fn max_of(s: Seq<u32>) -> int
    decreases s.len(),
{
    if s.len() == 0 {
        0
    } else {
        let m = max_of(s.drop_last());
        if s.len() == 1 || s.last() > m {
            s.last() as int
        } else {
            m
        }
    }
}

/// Smallest of the values, or 0.
pub open spec fn min_of(s: Seq<u32>) -> int
    decreases s.len(),
{
    if s.len() == 0 {
        0
    } else {
        let m = min_of(s.drop_last());
        if s.len() == 1 || s.last() < m {
            s.last() as int
        } else {
            m
        }
    }
}

/// The path with base name `name`, numbered `k` when `k >= 2`.
pub open spec fn candidate(prefix: Seq<char>, name: Seq<char>, ext: Seq<char>, k: nat) -> Seq<char> {
    if k < 2 {
        prefix + name + "."@ + ext
    } else {
        prefix + name + "_"@ + dec_spec(k) + "."@ + ext
    }
}

/// The first candidate, from number `k` on, that names no known node; the
/// count stops below `u32::MAX`.
pub open spec fn first_free(nodes: &TextMap<FileNode>, prefix: Seq<char>, name: Seq<char>, ext: Seq<char>, k: nat) -> nat
    decreases 0xffff_ffffnat - k,
{
    if k >= 0xffff_fffe || nodes.spec_get(canon_spec(candidate(prefix, name, ext, k))) is None {
        k
    } else {
        first_free(nodes, prefix, name, ext, k + 1)
    }
}

/// An alternative placement, as plain values.
pub struct AltView {
    pub path: Seq<char>,
    pub cluster: Seq<char>,
    pub risk: Seq<char>,
}

impl View for PlacementAlternative {
    type V = AltView;

    open spec fn view(&self) -> AltView {
        AltView { path: self.path@, cluster: self.cluster@, risk: self.risk@ }
    }
}

/// A placement suggestion, as plain values.
pub struct PlacementView {
    pub suggested_path: Seq<char>,
    pub cluster: Seq<char>,
    pub layer: Seq<char>,
    pub arch_depth: u32,
    pub reasoning: Seq<Seq<char>>,
    pub alternatives: Seq<AltView>,
    pub data_quality: DataQuality,
}

impl View for PlacementSuggestion {
    type V = PlacementView;

    open spec fn view(&self) -> PlacementView {
        PlacementView {
            suggested_path: self.suggested_path@,
            cluster: self.cluster@,
            layer: self.layer@,
            arch_depth: self.arch_depth,
            reasoning: strings_view(self.reasoning@),
            alternatives: alts_view(self.alternatives@),
            data_quality: self.data_quality,
        }
    }
}

/// The views of a sequence of alternatives.
pub open spec fn alts_view(v: Seq<PlacementAlternative>) -> Seq<AltView> {
    v.map_values(|a: PlacementAlternative| a@)
}

/// The files of cluster `id`, if the cluster is known.
pub open spec fn cluster_files(clusters: &TextMap<Cluster>, id: Seq<char>) -> Option<Seq<Seq<char>>> {
    match clusters.spec_get(id) {
        Some(c) => Some(path_views(c.files@)),
        None => None,
    }
}

/// The directory prefix for new files of cluster `id`.
pub open spec fn prefix_for(clusters: &TextMap<Cluster>, id: Seq<char>) -> Seq<char> {
    match cluster_files(clusters, id) {
        Some(fs) => common_prefix_spec(fs),
        None => Seq::empty(),
    }
}

/// The extension for new files of cluster `id`.
pub open spec fn ext_for(clusters: &TextMap<Cluster>, id: Seq<char>) -> Seq<char> {
    match cluster_files(clusters, id) {
        Some(fs) => common_ext_spec(fs),
        None => "rs"@,
    }
}

/// The alternative of runner-up cluster `id`.
pub open spec fn alt_spec(clusters: &TextMap<Cluster>, name: Seq<char>, id: Seq<char>, count: nat, total: nat) -> AltView {
    AltView {
        path: prefix_for(clusters, id) + name + "."@ + ext_for(clusters, id),
        cluster: id,
        risk: "Lower dependency overlap ("@ + dec_spec(count) + "/"@ + dec_spec(total) + " files)"@,
    }
}

/// The alternatives: one per runner-up of the ranking, best first.
pub open spec fn alts_spec(clusters: &TextMap<Cluster>, name: Seq<char>, cl: Seq<Seq<char>>, rank: Seq<Seq<char>>) -> Seq<AltView> {
    if rank.len() > 1 {
        rank.skip(1).map_values(|id: Seq<char>| alt_spec(clusters, name, id, occ(cl, id), cl.len()))
    } else {
        Seq::empty()
    }
}

/// Concatenation of the parts, in order.
pub open spec fn cat_spec(parts: Seq<Seq<char>>) -> Seq<char>
    decreases parts.len(),
{
    if parts.len() == 0 {
        Seq::empty()
    } else {
        cat_spec(parts.drop_last()) + parts.last()
    }
}

/// The placement of a new file with no usable context.
pub open spec fn minimal_view() -> PlacementView {
    PlacementView {
        suggested_path: "src/new_module"@,
        cluster: Seq::empty(),
        layer: "unknown"@,
        arch_depth: 0,
        reasoning: seq!["No dependency context available; defaulting to root-level placement"@],
        alternatives: Seq::empty(),
        data_quality: DataQuality::Minimal,
    }
}

/// Everything the suggestion is computed from, gathered once.
pub struct PlacementFacts {
    pub dd: Seq<Seq<char>>,
    pub dr: Seq<Seq<char>>,
    pub rd: Seq<Seq<char>>,
    pub rr: Seq<Seq<char>>,
    pub cl: Seq<Seq<char>>,
    pub layers: Seq<ArchLayer>,
    pub dep_depths: Seq<u32>,
    pub rev_depths: Seq<u32>,
    pub rank: Seq<Seq<char>>,
}

/// The cluster of a known path.
pub open spec fn cluster_of_f(nodes: &TextMap<FileNode>) -> spec_fn(Seq<char>) -> Seq<char> {
    |p: Seq<char>| node_of(nodes, p).cluster.id@
}

/// The layer of a known path.
pub open spec fn layer_of_f(nodes: &TextMap<FileNode>) -> spec_fn(Seq<char>) -> ArchLayer {
    |p: Seq<char>| node_of(nodes, p).layer
}

/// The depth of a known path.
pub open spec fn depth_of_f(nodes: &TextMap<FileNode>) -> spec_fn(Seq<char>) -> u32 {
    |p: Seq<char>| node_of(nodes, p).arch_depth
}

/// The facts of a placement request.
pub open spec fn facts(deps: Seq<Seq<char>>, revs: Seq<Seq<char>>, nodes: &TextMap<FileNode>) -> PlacementFacts {
    let dd = sorted_set(deps);
    let dr = sorted_set(revs);
    let rd = present(dd, nodes);
    let rr = present(dr, nodes);
    let all = rd + rr;
    let cl = all.map_values(cluster_of_f(nodes));
    PlacementFacts {
        dd,
        dr,
        rd,
        rr,
        cl,
        layers: all.map_values(layer_of_f(nodes)),
        dep_depths: rd.map_values(depth_of_f(nodes)),
        rev_depths: rr.map_values(depth_of_f(nodes)),
        rank: ranking(cl, 4),
    }
}

/// The depth a new file gets: one below its deepest dependency, or the
/// depth of its shallowest dependent when it has no dependency.
pub open spec fn depth_spec(f: PlacementFacts) -> int {
    depth_of(f.dep_depths, f.rev_depths)
}

/// `n / d` rounded to the nearest integer, ties to the even one.
pub open spec fn round_div_even(n: nat, d: nat) -> nat {
    let q = n / d;
    let r = n % d;
    if 2 * r > d || (2 * r == d && q % 2 == 1) {
        q + 1
    } else {
        q
    }
}

/// `x` and `d` doubled together until `x` reaches `target` (at most `fuel` times).
pub open spec fn doubled(x: nat, d: nat, target: nat, fuel: nat) -> (nat, nat)
    decreases fuel,
{
    if fuel == 0 || x >= target {
        (x, d)
    } else {
        doubled(2 * x, 2 * d, target, (fuel - 1) as nat)
    }
}

/// The percentage `a` of `b` as `(a as f64 / b as f64 * 100.0) as u32`
/// computes it, for counts `a <= b`: the quotient rounded to a 53-bit
/// significand (nearest, ties to even), times 100 rounded the same way,
/// then truncated. With `a / b` scaled by `d = 2^k` into
/// `[2^52, 2^53)`, the quotient is `m / d`; the product `100 m` lies in
/// `[2^58, 2^60)`, where a 53-bit significand keeps multiples of 64 below
/// `2^59` and of 128 above.
pub open spec fn f64_percent(a: nat, b: nat) -> nat {
    if a == 0 || b == 0 {
        0
    } else if a >= b {
        100
    } else {
        let (x, d) = doubled(a, 1, b * 4503599627370496, 128);
        let m = round_div_even(x, b);
        let p = m * 100;
        let unit: nat = if p >= 576460752303423488 { 128 } else { 64 };
        round_div_even(p, unit) * unit / d
    }
}

/// `round_div_even`.
fn round_div_even_exec(n: u128, d: u128) -> (r: u128)
    requires
        d > 0,
        n < 0x8000_0000_0000_0000_0000_0000_0000_0000,
    ensures
        r == round_div_even(n as nat, d as nat),
        r <= n / d + 1,
{
    let q = n / d;
    assert(q <= n) by (nonlinear_arith)
        requires
            q == n / d,
            d > 0,
    ;
    let rem = n % d;
    if rem > d - rem || (rem == d - rem && q % 2 == 1) {
        q + 1
    } else {
        q
    }
}

/// `f64_percent`.
fn f64_percent_exec(a: u128, b: u128) -> (r: u128)
    requires
        a <= b,
        b < 0x1_0000_0000_0000_0000,
    ensures
        r == f64_percent(a as nat, b as nat),
{
    if a == 0 || b == 0 {
        return 0;
    }
    if a >= b {
        return 100;
    }
    let target: u128 = b * 4503599627370496;
    let mut x: u128 = a;
    let mut d: u128 = 1;
    let mut fuel: u128 = 128;
    while fuel > 0 && x < target
        invariant
            1 <= d <= x,
            x <= 2 * target,
            target == b * 4503599627370496,
            target < 0x10_0000_0000_0000_0000_0000_0000_0000,
            fuel <= 128,
            doubled(x as nat, d as nat, target as nat, fuel as nat) == doubled(a as nat, 1, target as nat, 128),
        decreases fuel,
    {
        x = 2 * x;
        d = 2 * d;
        fuel = fuel - 1;
    }
    assert(x / b <= x) by (nonlinear_arith)
        requires
            b >= 1,
    ;
    let m = round_div_even_exec(x, b);
    let p = m * 100;
    if p >= 576460752303423488 {
        let t = round_div_even_exec(p, 128);
        t * 128 / d
    } else {
        let t = round_div_even_exec(p, 64);
        t * 64 / d
    }
}

/// The lines that explain the cluster choice.
pub open spec fn cluster_lines(f: PlacementFacts) -> Seq<Seq<char>> {
    cluster_lines_of(f.cl, f.rank)
}

/// The lines that explain the choice of `rank[0]` among the votes `cl`.
pub open spec fn cluster_lines_of(cl: Seq<Seq<char>>, rank: Seq<Seq<char>>) -> Seq<Seq<char>> {
    if rank.len() > 0 {
        let w = rank[0];
        let wc = occ(cl, w);
        let total = cl.len();
        let pct = f64_percent(wc, total);
        seq![
            "Cluster '"@ + w + "' selected with "@ + dec_spec(wc) + "/"@ + dec_spec(total) + " dependency votes ("@
                + dec_spec(pct) + "%)"@,
        ] + if pct < 80 {
            seq!["Confidence is moderate ("@ + dec_spec(pct) + "% < 80%); consider alternatives"@]
        } else {
            Seq::empty()
        }
    } else {
        Seq::empty()
    }
}

/// The line that reports a layer conflict, if there is one.
pub open spec fn conflict_lines(f: PlacementFacts) -> Seq<Seq<char>> {
    conflict_lines_of(f.dep_depths, f.rev_depths)
}

/// The conflict line for dependency depths `dd` and dependent depths `rv`.
pub open spec fn conflict_lines_of(dd: Seq<u32>, rv: Seq<u32>) -> Seq<Seq<char>> {
    if dd.len() > 0 && rv.len() > 0 && max_of(dd) + 1 > min_of(rv) {
        seq![
            "Layer conflict: suggested depth "@ + dec_spec((max_of(dd) + 1) as nat)
                + " exceeds minimum reverse-dep depth "@ + dec_spec(min_of(rv) as nat),
        ]
    } else {
        Seq::empty()
    }
}

/// The warnings for the paths of `dd` that are also in `dr`, in order.
pub open spec fn circular_from(dd: Seq<Seq<char>>, dr: Seq<Seq<char>>) -> Seq<Seq<char>>
    decreases dd.len(),
{
    if dd.len() == 0 {
        Seq::empty()
    } else {
        circular_from(dd.drop_last(), dr) + if dr.contains(dd.last()) {
            seq!["Warning: circular dependency with "@ + dd.last()]
        } else {
            Seq::empty()
        }
    }
}

/// The warnings for paths that are both dependencies and dependents.
pub open spec fn circular_lines(f: PlacementFacts) -> Seq<Seq<char>> {
    circular_from(f.dd, f.dr)
}

/// The line that counts unresolved paths, if any.
pub open spec fn unresolved_lines(f: PlacementFacts) -> Seq<Seq<char>> {
    let u = (f.dd.len() - f.rd.len()) + (f.dr.len() - f.rr.len());
    if u > 0 {
        seq![dec_spec(u as nat) + " dependency path(s) could not be resolved in the graph"@]
    } else {
        Seq::empty()
    }
}

/// The suggestion made for a new file described by `description` that
/// depends on `deps` and is depended on by `revs`.
pub open spec fn placement_spec(
    description: Seq<char>,
    deps: Seq<Seq<char>>,
    revs: Seq<Seq<char>>,
    nodes: &TextMap<FileNode>,
    clusters: &TextMap<Cluster>,
) -> PlacementView {
    let f = facts(deps, revs, nodes);
    if f.rd.len() == 0 && f.rr.len() == 0 && clusters.spec_entries().len() == 0 {
        minimal_view()
    } else {
        let name = filename_spec(description);
        let winner: Option<Seq<char>> = if f.rank.len() > 0 {
            Some(f.rank[0])
        } else {
            None
        };
        let prefix = match winner {
            Some(w) => prefix_for(clusters, w),
            None => Seq::empty(),
        };
        let ext = match winner {
            Some(w) => ext_for(clusters, w),
            None => "rs"@,
        };
        let layer = layer_name_spec(f.layers);
        PlacementView {
            suggested_path: candidate(prefix, name, ext, first_free(nodes, prefix, name, ext, 1)),
            cluster: match winner {
                Some(w) => w,
                None => Seq::empty(),
            },
            layer,
            arch_depth: depth_spec(f) as u32,
            reasoning: cluster_lines(f) + conflict_lines(f) + seq!["Inferred architectural layer: "@ + layer]
                + circular_lines(f) + unresolved_lines(f),
            alternatives: alts_spec(clusters, name, f.cl, f.rank),
            data_quality: if nodes.spec_entries().len() > 0 && clusters.spec_entries().len() > 0 && (f.rd.len()
                > 0 || f.rr.len() > 0) {
                DataQuality::Structured
            } else {
                DataQuality::Minimal
            },
        }
    }
}


// ---------------------------------------------------------------------------
// Implementation
// ---------------------------------------------------------------------------

/// `sanitize_spec`: the file name made of already lower-cased text.
pub fn sanitize_lowered(lowered: &str) -> (r: String)
    ensures
        r@ == sanitize_spec(lowered@),
{
    let v = chars_of(lowered);
    let mut out: Vec<char> = Vec::new();
    let mut last_us = true;
    let mut i: usize = 0;
    while i < v.len()
        invariant
            0 <= i <= v@.len(),
            (out@, last_us) == collapse(v@.take(i as int)),
        decreases v.len() - i,
    {
        let c = v[i];
        proof {
            assert(v@.take(i + 1).drop_last() =~= v@.take(i as int));
            assert(v@.take(i + 1).last() == c);
        }
        if crate::text::is_ascii_alphanumeric(c) {
            out.push(c);
            last_us = false;
        } else if !last_us {
            out.push('_');
            last_us = true;
        }
        i += 1;
    }
    assert(v@.take(v@.len() as int) =~= v@);
    let r = trim_end_char(&out, '_');
    let r2 = if r.len() > 64 {
        let cut = slice(&r, 0, 64);
        assert(r@.subrange(0, 64) =~= r@.take(64));
        trim_end_char(&cut, '_')
    } else {
        r
    };
    if r2.len() == 0 {
        string_of(&chars_of("new_module"))
    } else {
        string_of(&r2)
    }
}

/// A file name for a module described by `description`: lower-cased,
/// non-alphanumerics collapsed to single `_`, trimmed, at most 64 characters,
/// `new_module` when nothing is left.
pub fn sanitize_to_filename(description: &str) -> (r: String)
    ensures
        r@ == filename_spec(description@),
        all_ascii(description@) ==> r@ == sanitize_spec(description@.map_values(|c: char| ascii_lower_char(c))),
        0 < r@.len() <= 64,
        forall|i: int| 0 <= i < r@.len() ==> is_filename_char(#[trigger] r@[i]),
{
    let lowered = to_lowercase(description);
    proof {
        lemma_sanitize_chars(lowered@);
    }
    sanitize_lowered(lowered.as_str())
}

/// The directory segments of every path of `paths` that has a directory.
fn dirs_exec(paths: &Vec<CanonicalPath>) -> (r: Vec<Vec<Vec<char>>>)
    ensures
        r@.map_values(|d: Vec<Vec<char>>| views(d@)) == dirs_of(path_views(paths@)),
{
    let ghost ps = path_views(paths@);
    let mut r: Vec<Vec<Vec<char>>> = Vec::new();
    let mut i: usize = 0;
    while i < paths.len()
        invariant
            0 <= i <= paths@.len(),
            ps == path_views(paths@),
            r@.map_values(|d: Vec<Vec<char>>| views(d@)) == dirs_of(ps.take(i as int)),
        decreases paths.len() - i,
    {
        let p = paths[i].chars();
        let ghost before = r@.map_values(|d: Vec<Vec<char>>| views(d@));
        proof {
            assert(ps.take(i + 1).drop_last() =~= ps.take(i as int));
            assert(ps.take(i + 1).last() == p@);
        }
        match rfind_char(&p, '/') {
            Some(k) => {
                let head = slice(&p, 0, k);
                assert(head@ == p@.take(k as int));
                let parts = split_char(&head, '/');
                r.push(parts);
                assert(r@.map_values(|d: Vec<Vec<char>>| views(d@)) =~= before.push(views(parts@)));
            },
            None => {
                assert(r@.map_values(|d: Vec<Vec<char>>| views(d@)) =~= before);
            },
        }
        assert(r@.map_values(|d: Vec<Vec<char>>| views(d@)) =~= dirs_of(ps.take(i + 1)));
        i += 1;
    }
    assert(ps.take(ps.len() as int) =~= ps);
    r
}

/// The longest directory prefix shared by the paths, with a final `/`, or
/// nothing when they share none.
pub fn common_path_prefix(paths: &Vec<CanonicalPath>) -> (r: String)
    ensures
        r@ == common_prefix_spec(path_views(paths@)),
{
    let dirs = dirs_exec(paths);
    let ghost ds = dirs@.map_values(|d: Vec<Vec<char>>| views(d@));
    if dirs.len() == 0 {
        return String::new();
    }
    let first = &dirs[0];
    assert(views(first@) == ds[0]);
    let mut len: usize = 0;
    while len < first.len()
        invariant
            0 <= len <= first@.len(),
            ds == dirs@.map_values(|d: Vec<Vec<char>>| views(d@)),
            ds.len() > 0,
            views(first@) == ds[0],
            agree_len(ds, 0) == agree_len(ds, len as int),
        ensures
            agree_len(ds, 0) == len,
        decreases first.len() - len,
    {
        let mut all = true;
        let mut j: usize = 0;
        while j < dirs.len()
            invariant
                0 <= j <= dirs@.len(),
                len < first@.len(),
                ds == dirs@.map_values(|d: Vec<Vec<char>>| views(d@)),
                views(first@) == ds[0],
                all == forall|m: int| 0 <= m < j ==> #[trigger] ds[m].len() > len && ds[m][len as int] == ds[0][len as int],
            decreases dirs.len() - j,
        {
            let d = &dirs[j];
            assert(views(d@) == ds[j as int]);
            if !(d.len() > len && crate::text::eq(&d[len], &first[len])) {
                all = false;
            }
            j += 1;
        }
        if !all {
            break;
        }
        len += 1;
    }
    if len == 0 {
        return String::new();
    }
    let head = slice_parts(first, len);
    let mut out = join(&head, '/');
    out.push('/');
    assert(views(head@) =~= ds[0].take(len as int));
    string_of(&out)
}

/// The first `n` parts.
fn slice_parts(v: &Vec<Vec<char>>, n: usize) -> (r: Vec<Vec<char>>)
    requires
        n <= v@.len(),
    ensures
        views(r@) == views(v@).take(n as int),
{
    let mut r: Vec<Vec<char>> = Vec::new();
    let mut i: usize = 0;
    while i < n
        invariant
            0 <= i <= n <= v@.len(),
            r@.len() == i,
            views(r@) == views(v@).take(i as int),
        decreases n - i,
    {
        let ghost before = r@;
        let part = slice(&v[i], 0, v[i].len());
        assert(v@[i as int]@.subrange(0, v@[i as int]@.len() as int) =~= v@[i as int]@);
        r.push(part);
        assert(r@ == before.push(part));
        assert(views(r@) =~= views(v@).take(i + 1)) by {
            assert forall|k: int| 0 <= k < i + 1 implies #[trigger] views(r@)[k] == views(v@).take(i + 1)[k] by {
                if k < i {
                    assert(views(before)[k] == views(v@).take(i as int)[k]);
                }
            }
        }
        i += 1;
    }
    r
}

/// Occurrences of `x` in `s`.
fn occ_exec(s: &Vec<Vec<char>>, x: &Vec<char>) -> (r: usize)
    ensures
        r == occ(views(s@), x@),
        r <= s@.len(),
{
    let ghost vs = views(s@);
    let mut c: usize = 0;
    let mut i: usize = 0;
    while i < s.len()
        invariant
            0 <= i <= s@.len(),
            vs == views(s@),
            c == occ(vs.take(i as int), x@),
            c <= i,
        decreases s.len() - i,
    {
        proof {
            assert(vs.take(i + 1).drop_last() =~= vs.take(i as int));
            assert(vs.take(i + 1).last() == s@[i as int]@);
        }
        if crate::text::eq(&s[i], x) {
            c += 1;
        }
        i += 1;
    }
    assert(vs.take(vs.len() as int) =~= vs);
    c
}

/// `beats` is a strict order.
proof fn lemma_beats(s: Seq<Seq<char>>, a: Seq<char>, b: Seq<char>, c: Seq<char>)
    ensures
        !(beats(s, a, b) && beats(s, b, a)),
        a != b ==> beats(s, a, b) || beats(s, b, a),
        beats(s, a, b) && beats(s, b, c) ==> beats(s, a, c),
        !beats(s, a, a),
{
    lemma_lt_irreflexive(a);
    if seq_lt(a, b) && seq_lt(b, a) {
        lemma_lt_transitive(a, b, a);
    }
    if a != b {
        lemma_lt_total(a, b);
    }
    if seq_lt(a, b) && seq_lt(b, c) {
        lemma_lt_transitive(a, b, c);
    }
}

/// At most one element is the best-ranked one.
proof fn lemma_top_unique(s: Seq<Seq<char>>, ex: Seq<Seq<char>>, e: Seq<char>)
    requires
        is_top(s, ex, e),
    ensures
        top_of(s, ex) == Some(e),
{
    let c = choose|x: Seq<char>| is_top(s, ex, x);
    if c != e {
        lemma_beats(s, c, e, c);
    }
}

/// The best-ranked element of `s` outside `ex`.
fn top_exec(s: &Vec<Vec<char>>, ex: &Vec<Vec<char>>) -> (r: Option<Vec<char>>)
    ensures
        match r {
            Some(e) => top_of(views(s@), views(ex@)) == Some(e@),
            None => top_of(views(s@), views(ex@)) is None,
        },
{
    let ghost vs = views(s@);
    let ghost vx = views(ex@);
    let mut best: Option<Vec<char>> = None;
    let mut best_count: usize = 0;
    let mut i: usize = 0;
    while i < s.len()
        invariant
            0 <= i <= s@.len(),
            vs == views(s@),
            vx == views(ex@),
            match best {
                Some(b) => {
                    &&& vs.contains(b@)
                    &&& !vx.contains(b@)
                    &&& best_count == occ(vs, b@)
                    &&& forall|k: int| 0 <= k < i && !vx.contains(vs[k]) && vs[k] != b@ ==> beats(vs, b@, #[trigger] vs[k])
                },
                None => forall|k: int| 0 <= k < i ==> vx.contains(#[trigger] vs[k]),
            },
        decreases s.len() - i,
    {
        let x = &s[i];
        assert(vs[i as int] == x@);
        if !crate::text::member(ex, x) {
            let cx = occ_exec(s, x);
            let ghost old_best = best;
            match &best {
                None => {
                    best = Some(slice(x, 0, x.len()));
                    best_count = cx;
                    assert(x@.subrange(0, x@.len() as int) =~= x@);
                },
                Some(b) => {
                    let take = cx > best_count || (cx == best_count && crate::text::compare_text(x, b) == crate::text::TextOrder::Less);
                    if take {
                        let ghost bb = b@;
                        best = Some(slice(x, 0, x.len()));
                        best_count = cx;
                        proof {
                            assert(x@.subrange(0, x@.len() as int) =~= x@);
                            assert(beats(vs, x@, bb));
                            assert forall|k: int| 0 <= k < i + 1 && !vx.contains(vs[k]) && vs[k] != x@ implies beats(vs, x@, #[trigger] vs[k]) by {
                                if vs[k] != bb {
                                    lemma_beats(vs, x@, bb, vs[k]);
                                }
                            }
                        }
                    } else {
                        proof {
                            if x@ != b@ {
                                lemma_beats(vs, b@, x@, b@);
                            }
                        }
                    }
                },
            }
        }
        i += 1;
    }
    match best {
        Some(b) => {
            proof {
                assert forall|f: Seq<char>| vs.contains(f) && !vx.contains(f) && f != b@ implies beats(vs, b@, f) by {
                    let k = choose|k: int| 0 <= k < vs.len() && vs[k] == f;
                }
                lemma_top_unique(vs, vx, b@);
            }
            Some(b)
        },
        None => {
            proof {
                if exists|e: Seq<char>| is_top(vs, vx, e) {
                    let e = choose|e: Seq<char>| is_top(vs, vx, e);
                    let k = choose|k: int| 0 <= k < vs.len() && vs[k] == e;
                }
            }
            None
        },
    }
}

/// The most frequent extension among the paths, the smallest on ties, or
/// `rs` when none has one.
pub fn most_common_extension(paths: &Vec<CanonicalPath>) -> (r: String)
    ensures
        r@ == common_ext_spec(path_views(paths@)),
{
    let ghost ps = path_views(paths@);
    let mut exts: Vec<Vec<char>> = Vec::new();
    let mut i: usize = 0;
    while i < paths.len()
        invariant
            0 <= i <= paths@.len(),
            ps == path_views(paths@),
            views(exts@) == exts_of(ps.take(i as int)),
        decreases paths.len() - i,
    {
        proof {
            assert(ps.take(i + 1).drop_last() =~= ps.take(i as int));
            assert(ps.take(i + 1).last() == paths@[i as int]@);
        }
        let ghost before = views(exts@);
        match paths[i].extension() {
            Some(e) => {
                exts.push(e);
                assert(views(exts@) =~= before.push(e@));
            },
            None => {},
        }
        assert(views(exts@) =~= exts_of(ps.take(i + 1)));
        i += 1;
    }
    assert(ps.take(ps.len() as int) =~= ps);
    let none: Vec<Vec<char>> = Vec::new();
    assert(views(none@) =~= Seq::<Seq<char>>::empty());
    match top_exec(&exts, &none) {
        Some(e) => string_of(&e),
        None => string_of(&chars_of("rs")),
    }
}

/// The `k` best-ranked distinct elements of `s`.
fn ranking_exec(s: &Vec<Vec<char>>, k: usize) -> (r: Vec<Vec<char>>)
    ensures
        views(r@) == ranking(views(s@), k as nat),
{
    let mut r: Vec<Vec<char>> = Vec::new();
    let mut i: usize = 0;
    while i < k
        invariant
            0 <= i <= k,
            views(r@) == ranking(views(s@), i as nat),
        decreases k - i,
    {
        let ghost before = views(r@);
        match top_exec(s, &r) {
            Some(b) => {
                r.push(b);
                assert(views(r@) =~= before.push(b@));
            },
            None => {},
        }
        i += 1;
    }
    r
}

/// Occurrences of layer `x`.
fn layer_occ(s: &Vec<ArchLayer>, x: ArchLayer) -> (r: usize)
    ensures
        r == occ(s@, x),
{
    let mut c: usize = 0;
    let mut i: usize = 0;
    while i < s.len()
        invariant
            0 <= i <= s@.len(),
            c == occ(s@.take(i as int), x),
            c <= i,
        decreases s.len() - i,
    {
        proof {
            assert(s@.take(i + 1).drop_last() =~= s@.take(i as int));
        }
        if s[i] == x {
            c += 1;
        }
        i += 1;
    }
    assert(s@.take(s@.len() as int) =~= s@);
    c
}

/// The name of the most frequent layer, the earliest on ties, or `unknown`.
fn layer_name_exec(s: &Vec<ArchLayer>) -> (r: String)
    ensures
        r@ == layer_name_spec(s@),
{
    let mut best: Option<ArchLayer> = None;
    let mut best_count: usize = 0;
    let mut i: usize = 0;
    while i < s.len()
        invariant
            0 <= i <= s@.len(),
            match best {
                Some(b) => {
                    &&& s@.contains(b)
                    &&& best_count == occ(s@, b)
                    &&& forall|k: int| 0 <= k < i && s@[k] != b ==> layer_beats(s@, b, #[trigger] s@[k])
                },
                None => i == 0,
            },
        decreases s.len() - i,
    {
        let x = s[i];
        let cx = layer_occ(s, x);
        match best {
            None => {
                best = Some(x);
                best_count = cx;
            },
            Some(b) => {
                if cx > best_count || (cx == best_count && x.rank() < b.rank()) {
                    best = Some(x);
                    best_count = cx;
                }
            },
        }
        i += 1;
    }
    match best {
        Some(b) => {
            proof {
                assert forall|m: ArchLayer| s@.contains(m) && m != b implies layer_beats(s@, b, m) by {
                    let k = choose|k: int| 0 <= k < s@.len() && s@[k] == m;
                }
                assert(is_top_layer(s@, b));
                let c = choose|l: ArchLayer| is_top_layer(s@, l);
                if c != b {
                    assert(layer_beats(s@, c, b));
                }
            }
            string_of(&chars_of(b.as_str()))
        },
        None => {
            proof {
                if exists|l: ArchLayer| is_top_layer(s@, l) {
                    let l = choose|l: ArchLayer| is_top_layer(s@, l);
                    assert(s@.contains(l));
                }
            }
            string_of(&chars_of("unknown"))
        },
    }
}

/// The known paths of `set`, with their depths; their clusters and layers
/// are appended to `cl` and `layers`.
fn resolve_set(
    set: &FileSet,
    nodes: &TextMap<FileNode>,
    cl: &mut Vec<Vec<char>>,
    layers: &mut Vec<ArchLayer>,
) -> (r: (Vec<Vec<char>>, Vec<u32>))
    ensures
        views(r.0@) == present(set@, nodes),
        r.1@ == present(set@, nodes).map_values(depth_of_f(nodes)),
        views(final(cl)@) == views(old(cl)@) + present(set@, nodes).map_values(cluster_of_f(nodes)),
        final(layers)@ == old(layers)@ + present(set@, nodes).map_values(layer_of_f(nodes)),
{
    let paths = set.paths();
    let ghost s = set@;
    let ghost cl0 = views(cl@);
    let ghost ly0 = layers@;
    let mut found: Vec<Vec<char>> = Vec::new();
    let mut depths: Vec<u32> = Vec::new();
    let mut i: usize = 0;
    while i < paths.len()
        invariant
            0 <= i <= paths@.len(),
            s == set@,
            path_views(paths@) == s,
            views(found@) == present(s.take(i as int), nodes),
            depths@ == present(s.take(i as int), nodes).map_values(depth_of_f(nodes)),
            views(cl@) == cl0 + present(s.take(i as int), nodes).map_values(cluster_of_f(nodes)),
            layers@ == ly0 + present(s.take(i as int), nodes).map_values(layer_of_f(nodes)),
        decreases paths.len() - i,
    {
        let p = paths[i].chars();
        let ghost pre = present(s.take(i as int), nodes);
        proof {
            assert(s.take(i + 1).drop_last() =~= s.take(i as int));
            assert(s.take(i + 1).last() == p@);
        }
        match nodes.get(&p) {
            Some(n) => {
                let ghost f0 = views(found@);
                let ghost c0 = views(cl@);
                let ghost l0 = layers@;
                let ghost d0 = depths@;
                let id = chars_of(n.cluster.id.as_str());
                found.push(p);
                cl.push(id);
                layers.push(n.layer);
                depths.push(n.arch_depth);
                proof {
                    let post = present(s.take(i + 1), nodes);
                    assert(post =~= pre.push(p@));
                    assert(node_of(nodes, p@) == *n);
                    assert(views(found@) =~= f0.push(p@));
                    assert(views(cl@) =~= c0.push(id@));
                    assert(post.map_values(cluster_of_f(nodes)) =~= pre.map_values(cluster_of_f(nodes)).push(id@));
                    assert(post.map_values(layer_of_f(nodes)) =~= pre.map_values(layer_of_f(nodes)).push(n.layer));
                    assert(post.map_values(depth_of_f(nodes)) =~= pre.map_values(depth_of_f(nodes)).push(n.arch_depth));
                    assert(views(cl@) =~= cl0 + post.map_values(cluster_of_f(nodes)));
                    assert(layers@ =~= ly0 + post.map_values(layer_of_f(nodes)));
                }
            },
            None => {
                proof {
                    assert(present(s.take(i + 1), nodes) =~= pre);
                }
            },
        }
        i += 1;
    }
    assert(s.take(s.len() as int) =~= s);
    (found, depths)
}

/// Largest of the values, or 0.
fn max_exec(v: &Vec<u32>) -> (r: u32)
    ensures
        r == max_of(v@),
{
    let mut m: u32 = 0;
    let mut i: usize = 0;
    while i < v.len()
        invariant
            0 <= i <= v@.len(),
            m == max_of(v@.take(i as int)),
        decreases v.len() - i,
    {
        proof {
            assert(v@.take(i + 1).drop_last() =~= v@.take(i as int));
        }
        if i == 0 || v[i] > m {
            m = v[i];
        }
        i += 1;
    }
    assert(v@.take(v@.len() as int) =~= v@);
    m
}

/// Smallest of the values, or 0.
fn min_exec(v: &Vec<u32>) -> (r: u32)
    ensures
        r == min_of(v@),
{
    let mut m: u32 = 0;
    let mut i: usize = 0;
    while i < v.len()
        invariant
            0 <= i <= v@.len(),
            m == min_of(v@.take(i as int)),
        decreases v.len() - i,
    {
        proof {
            assert(v@.take(i + 1).drop_last() =~= v@.take(i as int));
        }
        if i == 0 || v[i] < m {
            m = v[i];
        }
        i += 1;
    }
    assert(v@.take(v@.len() as int) =~= v@);
    m
}

/// Candidate path number `k`.
fn candidate_exec(prefix: &Vec<char>, name: &Vec<char>, ext: &Vec<char>, k: u64) -> (r: Vec<char>)
    ensures
        r@ == candidate(prefix@, name@, ext@, k as nat),
{
    let mut out = slice(prefix, 0, prefix.len());
    push_all(&mut out, name);
    if k >= 2 {
        push_all(&mut out, &chars_of("_"));
        push_all(&mut out, &dec(k as u128));
    }
    push_all(&mut out, &chars_of("."));
    push_all(&mut out, ext);
    assert(prefix@.subrange(0, prefix@.len() as int) =~= prefix@);
    assert(out@ =~= candidate(prefix@, name@, ext@, k as nat));
    out
}

/// Concatenation of character sequences.
fn cat(parts: &Vec<Vec<char>>) -> (r: Vec<char>)
    ensures
        r@ == cat_spec(views(parts@)),
{
    let mut out: Vec<char> = Vec::new();
    let mut i: usize = 0;
    while i < parts.len()
        invariant
            0 <= i <= parts@.len(),
            out@ == cat_spec(views(parts@).take(i as int)),
        decreases parts.len() - i,
    {
        push_all(&mut out, &parts[i]);
        assert(views(parts@).take(i + 1).drop_last() =~= views(parts@).take(i as int));
        i += 1;
    }
    assert(views(parts@).take(parts@.len() as int) =~= views(parts@));
    out
}

/// Push the lines that explain the cluster choice.
fn push_cluster_lines(cl: &Vec<Vec<char>>, rank: &Vec<Vec<char>>, out: &mut Vec<String>)
    requires
        views(rank@) == ranking(views(cl@), 4),
    ensures
        strings_view(final(out)@) == strings_view(old(out)@) + cluster_lines_of(views(cl@), views(rank@)),
{
    let ghost before = strings_view(out@);
    if rank.len() == 0 {
        assert(strings_view(out@) =~= before + cluster_lines_of(views(cl@), views(rank@)));
        return;
    }
    let w = &rank[0];
    proof {
        lemma_ranking_members(views(cl@), 4);
        assert(views(rank@)[0] == w@);
        assert(views(cl@).contains(w@));
    }
    let wc = occ_exec(cl, w);
    let total = cl.len();
    assert(total > 0);
    let pct = f64_percent_exec(wc as u128, total as u128);
    let mut line = chars_of("Cluster '");
    push_all(&mut line, w);
    push_all(&mut line, &chars_of("' selected with "));
    push_all(&mut line, &dec(wc as u128));
    push_all(&mut line, &chars_of("/"));
    push_all(&mut line, &dec(total as u128));
    push_all(&mut line, &chars_of(" dependency votes ("));
    push_all(&mut line, &dec(pct as u128));
    push_all(&mut line, &chars_of("%)"));
    out.push(string_of(&line));
    if pct < 80 {
        let mut l2 = chars_of("Confidence is moderate (");
        push_all(&mut l2, &dec(pct as u128));
        push_all(&mut l2, &chars_of("% < 80%); consider alternatives"));
        out.push(string_of(&l2));
    }
    assert(strings_view(out@) =~= before + cluster_lines_of(views(cl@), views(rank@)));
}

/// Members of the ranking are distinct elements of `s`.
proof fn lemma_ranking_members(s: Seq<Seq<char>>, k: nat)
    ensures
        forall|i: int| 0 <= i < ranking(s, k).len() ==> s.contains(#[trigger] ranking(s, k)[i]),
        ranking(s, k).len() <= k,
    decreases k,
{
    if k > 0 {
        lemma_ranking_members(s, (k - 1) as nat);
        let prev = ranking(s, (k - 1) as nat);
        match top_of(s, prev) {
            Some(b) => {
                let e = choose|e: Seq<char>| is_top(s, prev, e);
                assert(is_top(s, prev, e));
                assert forall|i: int| 0 <= i < ranking(s, k).len() implies s.contains(#[trigger] ranking(s, k)[i]) by {
                    if i < prev.len() {
                        assert(ranking(s, k)[i] == prev[i]);
                    }
                }
            },
            None => {},
        }
    }
}

/// Push the layer-conflict line, if any.
fn push_conflict_line(dd: &Vec<u32>, rv: &Vec<u32>, out: &mut Vec<String>) -> (r: u32)
    requires
        max_of(dd@) < 0xffff_ffff,
    ensures
        strings_view(final(out)@) == strings_view(old(out)@) + conflict_lines_of(dd@, rv@),
        r == depth_of(dd@, rv@),
{
    let ghost before = strings_view(out@);
    if dd.len() > 0 && rv.len() > 0 {
        let depth = max_exec(dd) + 1;
        let min_rev = min_exec(rv);
        if depth > min_rev {
            let mut line = chars_of("Layer conflict: suggested depth ");
            push_all(&mut line, &dec(depth as u128));
            push_all(&mut line, &chars_of(" exceeds minimum reverse-dep depth "));
            push_all(&mut line, &dec(min_rev as u128));
            out.push(string_of(&line));
        }
        assert(strings_view(out@) =~= before + conflict_lines_of(dd@, rv@));
        depth
    } else if dd.len() > 0 {
        assert(strings_view(out@) =~= before + conflict_lines_of(dd@, rv@));
        max_exec(dd) + 1
    } else if rv.len() > 0 {
        assert(strings_view(out@) =~= before + conflict_lines_of(dd@, rv@));
        min_exec(rv)
    } else {
        assert(strings_view(out@) =~= before + conflict_lines_of(dd@, rv@));
        0
    }
}

/// Push the circular-dependency warnings.
fn push_circular(dd: &FileSet, dr: &FileSet, out: &mut Vec<String>)
    ensures
        strings_view(final(out)@) == strings_view(old(out)@) + circular_from(dd@, dr@),
{
    let ghost before = strings_view(out@);
    let paths = dd.paths();
    let mut i: usize = 0;
    while i < paths.len()
        invariant
            0 <= i <= paths@.len(),
            path_views(paths@) == dd@,
            strings_view(out@) == before + circular_from(dd@.take(i as int), dr@),
        decreases paths.len() - i,
    {
        proof {
            assert(dd@.take(i + 1).drop_last() =~= dd@.take(i as int));
            assert(dd@.take(i + 1).last() == paths@[i as int]@);
        }
        let ghost mid = strings_view(out@);
        if dr.contains(&paths[i]) {
            let mut line = chars_of("Warning: circular dependency with ");
            push_all(&mut line, &paths[i].chars());
            out.push(string_of(&line));
            assert(strings_view(out@) =~= mid.push(line@));
        }
        assert(strings_view(out@) =~= before + circular_from(dd@.take(i + 1), dr@));
        i += 1;
    }
    assert(dd@.take(dd@.len() as int) =~= dd@);
}

/// The depth a new file gets from the depths of its dependencies and dependents.
pub open spec fn depth_of(dd: Seq<u32>, rv: Seq<u32>) -> int {
    if dd.len() > 0 {
        max_of(dd) + 1
    } else if rv.len() > 0 {
        min_of(rv)
    } else {
        0
    }
}

/// There are no more known paths than paths.
proof fn lemma_present_len(s: Seq<Seq<char>>, nodes: &TextMap<FileNode>)
    ensures
        present(s, nodes).len() <= s.len(),
    decreases s.len(),
{
    if s.len() > 0 {
        lemma_present_len(s.drop_last(), nodes);
    }
}

/// Values all below a bound have their maximum below it.
proof fn lemma_max_below(s: Seq<u32>, b: int)
    requires
        b > 0,
        forall|i: int| 0 <= i < s.len() ==> #[trigger] s[i] < b,
    ensures
        max_of(s) < b,
    decreases s.len(),
{
    if s.len() > 0 {
        lemma_max_below(s.drop_last(), b);
        assert(s.last() == s[s.len() - 1]);
    }
}

/// The known paths of `s` are paths of `s` that the graph knows.
proof fn lemma_present(s: Seq<Seq<char>>, nodes: &TextMap<FileNode>)
    ensures
        forall|i: int| 0 <= i < present(s, nodes).len() ==> s.contains(#[trigger] present(s, nodes)[i])
            && nodes.spec_get(present(s, nodes)[i]) is Some,
    decreases s.len(),
{
    if s.len() > 0 {
        lemma_present(s.drop_last(), nodes);
        let p = present(s.drop_last(), nodes);
        assert forall|i: int| 0 <= i < present(s, nodes).len() implies s.contains(#[trigger] present(s, nodes)[i])
            && nodes.spec_get(present(s, nodes)[i]) is Some by {
            if i < p.len() {
                assert(present(s, nodes)[i] == p[i]);
                let k = choose|k: int| 0 <= k < s.drop_last().len() && s.drop_last()[k] == p[i];
                assert(s[k] == p[i]);
            } else {
                assert(present(s, nodes)[i] == s.last());
                assert(s[s.len() - 1] == s.last());
            }
        }
    }
}

/// Prefix and extension for new files of cluster `id`.
fn prefix_ext(clusters: &TextMap<Cluster>, id: &Vec<char>) -> (r: (Vec<char>, Vec<char>))
    ensures
        r.0@ == prefix_for(clusters, id@),
        r.1@ == ext_for(clusters, id@),
{
    match clusters.get(id) {
        Some(c) => {
            let p = common_path_prefix(&c.files);
            let e = most_common_extension(&c.files);
            (chars_of(p.as_str()), chars_of(e.as_str()))
        },
        None => (Vec::new(), chars_of("rs")),
    }
}

/// The alternatives for the runner-ups of the ranking.
fn alternatives_exec(clusters: &TextMap<Cluster>, name: &Vec<char>, cl: &Vec<Vec<char>>, rank: &Vec<Vec<char>>) -> (r: Vec<PlacementAlternative>)
    ensures
        alts_view(r@) == alts_spec(clusters, name@, views(cl@), views(rank@)),
{
    let mut out: Vec<PlacementAlternative> = Vec::new();
    if rank.len() <= 1 {
        assert(alts_view(out@) =~= alts_spec(clusters, name@, views(cl@), views(rank@)));
        return out;
    }
    let ghost ids = views(rank@).skip(1);
    let ghost f = |id: Seq<char>| alt_spec(clusters, name@, id, occ(views(cl@), id), views(cl@).len());
    let mut i: usize = 1;
    while i < rank.len()
        invariant
            1 <= i <= rank@.len(),
            ids == views(rank@).skip(1),
            f == (|id: Seq<char>| alt_spec(clusters, name@, id, occ(views(cl@), id), views(cl@).len())),
            alts_view(out@) == ids.take(i - 1).map_values(f),
        decreases rank.len() - i,
    {
        let id = &rank[i];
        let count = occ_exec(cl, id);
        let total = cl.len();
        let (pre, ext) = prefix_ext(clusters, id);
        let mut path = slice(&pre, 0, pre.len());
        push_all(&mut path, name);
        push_all(&mut path, &chars_of("."));
        push_all(&mut path, &ext);
        let mut risk = chars_of("Lower dependency overlap (");
        push_all(&mut risk, &dec(count as u128));
        push_all(&mut risk, &chars_of("/"));
        push_all(&mut risk, &dec(total as u128));
        push_all(&mut risk, &chars_of(" files)"));
        let alt = PlacementAlternative { path: string_of(&path), cluster: string_of(id), risk: string_of(&risk) };
        proof {
            assert(pre@.subrange(0, pre@.len() as int) =~= pre@);
            assert(ids[i - 1] == id@);
            assert(alt@ == f(id@));
            assert(ids.take(i as int) =~= ids.take(i - 1).push(id@));
        }
        let ghost before = alts_view(out@);
        out.push(alt);
        assert(alts_view(out@) =~= before.push(alt@));
        assert(alts_view(out@) =~= ids.take(i as int).map_values(f));
        i += 1;
    }
    assert(ids.take(ids.len() as int) =~= ids);
    out
}

/// The placement suggested when nothing is known.
fn minimal_suggestion() -> (r: PlacementSuggestion)
    ensures
        r@ == minimal_view(),
{
    let mut reasoning: Vec<String> = Vec::new();
    reasoning.push(string_of(&chars_of("No dependency context available; defaulting to root-level placement")));
    let alternatives: Vec<PlacementAlternative> = Vec::new();
    let r = PlacementSuggestion {
        suggested_path: string_of(&chars_of("src/new_module")),
        cluster: String::new(),
        layer: string_of(&chars_of("unknown")),
        arch_depth: 0,
        reasoning,
        alternatives,
        data_quality: DataQuality::Minimal,
    };
    assert(strings_view(r.reasoning@) =~= minimal_view().reasoning);
    assert(alts_view(r.alternatives@) =~= Seq::<AltView>::empty());
    r
}

/// The suggestion depends on the dependency lists only through the paths
/// they hold: lists with the same paths, in any order and with any
/// repeats, give the same suggestion (and the layer index plays no part in
/// it at all).
pub proof fn lemma_placement_ignores_order_and_repeats(
    description: Seq<char>,
    deps1: Seq<Seq<char>>,
    deps2: Seq<Seq<char>>,
    revs1: Seq<Seq<char>>,
    revs2: Seq<Seq<char>>,
    nodes: &TextMap<FileNode>,
    clusters: &TextMap<Cluster>,
)
    requires
        forall|x: Seq<char>| deps1.contains(x) <==> deps2.contains(x),
        forall|x: Seq<char>| revs1.contains(x) <==> revs2.contains(x),
    ensures
        placement_spec(description, deps1, revs1, nodes, clusters) == placement_spec(description, deps2, revs2, nodes, clusters),
{
    crate::model::lemma_sorted_set_same(deps1, deps2);
    crate::model::lemma_sorted_set_same(revs1, revs2);
    assert(facts(deps1, revs1, nodes) == facts(deps2, revs2, nodes));
}

proof fn lemma_max_of_law(s: Seq<u32>)
    ensures
        forall|i: int| 0 <= i < s.len() ==> s[i] <= max_of(s),
        s.len() > 0 ==> exists|i: int| 0 <= i < s.len() && s[i] == max_of(s),
    decreases s.len(),
{
    if s.len() > 0 {
        let t = s.drop_last();
        lemma_max_of_law(t);
        assert forall|i: int| 0 <= i < s.len() implies s[i] <= max_of(s) by {
            if i < s.len() - 1 {
                assert(s[i] == t[i]);
            }
        }
        if !(s.len() == 1 || s.last() > max_of(t)) {
            let j = choose|j: int| 0 <= j < t.len() && t[j] == max_of(t);
            assert(s[j] == t[j]);
        } else {
            assert(s[s.len() - 1] == max_of(s));
        }
    }
}

proof fn lemma_min_of_law(s: Seq<u32>)
    ensures
        forall|i: int| 0 <= i < s.len() ==> min_of(s) <= s[i],
        s.len() > 0 ==> exists|i: int| 0 <= i < s.len() && s[i] == min_of(s),
    decreases s.len(),
{
    if s.len() > 0 {
        let t = s.drop_last();
        lemma_min_of_law(t);
        assert forall|i: int| 0 <= i < s.len() implies min_of(s) <= s[i] by {
            if i < s.len() - 1 {
                assert(s[i] == t[i]);
            }
        }
        if !(s.len() == 1 || s.last() < min_of(t)) {
            let j = choose|j: int| 0 <= j < t.len() && t[j] == min_of(t);
            assert(s[j] == t[j]);
        } else {
            assert(s[s.len() - 1] == min_of(s));
        }
    }
}

/// The depth a new file gets from the depths `dd` of its dependencies and
/// `rv` of its dependents: with a dependency, one more than the deepest
/// dependency (deeper than every one, and one below some); with none, the
/// depth of the shallowest dependent (no deeper than any, and equal to
/// one); with neither, the root depth 0.
pub proof fn lemma_depth_law(dd: Seq<u32>, rv: Seq<u32>)
    ensures
        dd.len() > 0 ==> (forall|i: int| 0 <= i < dd.len() ==> dd[i] < depth_of(dd, rv)) && exists|i: int|
            0 <= i < dd.len() && depth_of(dd, rv) == dd[i] + 1,
        dd.len() == 0 && rv.len() > 0 ==> (forall|i: int| 0 <= i < rv.len() ==> depth_of(dd, rv) <= rv[i]) && exists|
            i: int,
        | 0 <= i < rv.len() && depth_of(dd, rv) == rv[i],
        dd.len() == 0 && rv.len() == 0 ==> depth_of(dd, rv) == 0,
{
    lemma_max_of_law(dd);
    lemma_min_of_law(rv);
}

/// A layer conflict is reported exactly when some dependency is at least as
/// deep as some dependent, and then as one line.
pub proof fn lemma_conflict_law(dd: Seq<u32>, rv: Seq<u32>)
    ensures
        conflict_lines_of(dd, rv).len() > 0 <==> exists|i: int, j: int|
            0 <= i < dd.len() && 0 <= j < rv.len() && dd[i] >= rv[j],
        conflict_lines_of(dd, rv).len() <= 1,
{
    lemma_max_of_law(dd);
    lemma_min_of_law(rv);
    if dd.len() > 0 && rv.len() > 0 {
        let i0 = choose|i: int| 0 <= i < dd.len() && dd[i] == max_of(dd);
        let j0 = choose|j: int| 0 <= j < rv.len() && rv[j] == min_of(rv);
        if max_of(dd) + 1 > min_of(rv) {
            assert(dd[i0] >= rv[j0]);
        } else {
            assert forall|i: int, j: int| 0 <= i < dd.len() && 0 <= j < rv.len() implies !(dd[i] >= rv[j]) by {
                assert(dd[i] <= max_of(dd));
                assert(min_of(rv) <= rv[j]);
            }
        }
    }
}

/// The paths of `s` the graph knows are those of `s` that it holds.
proof fn lemma_present_contains(s: Seq<Seq<char>>, nodes: &TextMap<FileNode>)
    ensures
        forall|p: Seq<char>|
            #![trigger present(s, nodes).contains(p)]
            #![trigger s.contains(p)]
            present(s, nodes).contains(p) <==> (s.contains(p) && nodes.spec_get(p) is Some),
    decreases s.len(),
{
    if s.len() > 0 {
        let t = s.drop_last();
        lemma_present_contains(t, nodes);
        let tail: Seq<Seq<char>> = if nodes.spec_get(s.last()) is Some {
            seq![s.last()]
        } else {
            Seq::empty()
        };
        assert(present(s, nodes) == present(t, nodes) + tail);
        assert forall|p: Seq<char>| present(s, nodes).contains(p) <==> (s.contains(p) && nodes.spec_get(p) is Some) by {
            if present(s, nodes).contains(p) {
                let k = choose|k: int| 0 <= k < present(s, nodes).len() && present(s, nodes)[k] == p;
                if k < present(t, nodes).len() {
                    assert(present(t, nodes)[k] == p);
                    assert(present(t, nodes).contains(p));
                    assert(t.contains(p) && nodes.spec_get(p) is Some);
                    let j = choose|j: int| 0 <= j < t.len() && t[j] == p;
                    assert(s[j] == p);
                    assert(s.contains(p));
                } else {
                    assert(tail[k - present(t, nodes).len()] == p);
                    assert(nodes.spec_get(s.last()) is Some);
                    assert(s[s.len() - 1] == p);
                    assert(s.contains(p));
                }
            }
            if s.contains(p) && nodes.spec_get(p) is Some {
                let j = choose|j: int| 0 <= j < s.len() && s[j] == p;
                if j < s.len() - 1 {
                    assert(t[j] == p);
                    assert(t.contains(p));
                    assert(present(t, nodes).contains(p));
                    let k = choose|k: int| 0 <= k < present(t, nodes).len() && present(t, nodes)[k] == p;
                    assert(present(s, nodes)[k] == p);
                } else {
                    assert(s.last() == p);
                    assert(tail == seq![p]);
                    assert(present(s, nodes)[present(t, nodes).len() as int] == p);
                }
                assert(present(s, nodes).contains(p));
            }
        }
    }
}

/// A path among `s` that the graph holds.
pub open spec fn known(s: Seq<Seq<char>>, nodes: &TextMap<FileNode>, p: Seq<char>) -> bool {
    s.contains(p) && nodes.spec_get(p) is Some
}

/// The depth suggested for a new file, in terms of the graph: with a
/// dependency the graph knows, it is deeper than every known dependency
/// and exactly one deeper than some; with none but a known dependent, it
/// is no deeper than any known dependent and equal to one of them; with
/// neither, it is 0.
pub proof fn lemma_placement_depth(
    description: Seq<char>,
    deps: Seq<Seq<char>>,
    revs: Seq<Seq<char>>,
    nodes: &TextMap<FileNode>,
    clusters: &TextMap<Cluster>,
)
    requires
        forall|p: Seq<char>| #[trigger] known(deps, nodes, p) ==> node_of(nodes, p).arch_depth < 0xffff_ffff,
    ensures
        ({
            let d = placement_spec(description, deps, revs, nodes, clusters).arch_depth;
            &&& (exists|p: Seq<char>| #[trigger] known(deps, nodes, p)) ==> {
                &&& forall|p: Seq<char>| #[trigger] known(deps, nodes, p) ==> node_of(nodes, p).arch_depth < d
                &&& exists|p: Seq<char>| #[trigger] known(deps, nodes, p) && d == node_of(nodes, p).arch_depth + 1
            }
            &&& (!exists|p: Seq<char>| #[trigger] known(deps, nodes, p)) && (exists|q: Seq<char>|
                #[trigger] known(revs, nodes, q)) ==> {
                &&& forall|q: Seq<char>| #[trigger] known(revs, nodes, q) ==> d <= node_of(nodes, q).arch_depth
                &&& exists|q: Seq<char>| #[trigger] known(revs, nodes, q) && d == node_of(nodes, q).arch_depth
            }
            &&& (!exists|p: Seq<char>| #[trigger] known(deps, nodes, p)) && (!exists|q: Seq<char>|
                #[trigger] known(revs, nodes, q)) ==> d == 0
        }),
{
    let f = facts(deps, revs, nodes);
    crate::model::lemma_sorted_set_exists(deps);
    crate::model::lemma_sorted_set_exists(revs);
    lemma_present_contains(f.dd, nodes);
    lemma_present_contains(f.dr, nodes);
    lemma_depth_law(f.dep_depths, f.rev_depths);
    assert forall|p: Seq<char>| f.rd.contains(p) <==> known(deps, nodes, p) by {}
    assert forall|q: Seq<char>| f.rr.contains(q) <==> known(revs, nodes, q) by {}
    // the depth of each known path, by its place among the known paths
    assert forall|j: int| 0 <= j < f.rd.len() implies f.dep_depths[j] == node_of(nodes, f.rd[j]).arch_depth by {}
    assert forall|j: int| 0 <= j < f.rr.len() implies f.rev_depths[j] == node_of(nodes, f.rr[j]).arch_depth by {}
    let v = placement_spec(description, deps, revs, nodes, clusters);
    if f.rd.len() > 0 {
        let j0 = choose|j: int| 0 <= j < f.dep_depths.len() && depth_of(f.dep_depths, f.rev_depths) == f.dep_depths[j] + 1;
        assert(known(deps, nodes, f.rd[j0]));
        assert(f.dep_depths[j0] < 0xffff_ffff);
        assert(v.arch_depth == depth_spec(f));
        assert forall|p: Seq<char>| #[trigger] known(deps, nodes, p) implies node_of(nodes, p).arch_depth < v.arch_depth by {
            assert(f.rd.contains(p));
            let j = choose|j: int| 0 <= j < f.rd.len() && f.rd[j] == p;
            assert(f.dep_depths[j] < depth_of(f.dep_depths, f.rev_depths));
        }
        assert(known(deps, nodes, f.rd[j0]) && v.arch_depth == node_of(nodes, f.rd[j0]).arch_depth + 1);
    } else if f.rr.len() > 0 {
        let j0 = choose|j: int| 0 <= j < f.rev_depths.len() && depth_of(f.dep_depths, f.rev_depths) == f.rev_depths[j];
        assert(!exists|p: Seq<char>| #[trigger] known(deps, nodes, p)) by {
            if exists|p: Seq<char>| #[trigger] known(deps, nodes, p) {
                let p = choose|p: Seq<char>| #[trigger] known(deps, nodes, p);
                assert(f.rd.contains(p));
            }
        }
        assert(known(revs, nodes, f.rr[j0]));
        assert(v.arch_depth == depth_spec(f));
        assert forall|q: Seq<char>| #[trigger] known(revs, nodes, q) implies v.arch_depth <= node_of(nodes, q).arch_depth by {
            assert(f.rr.contains(q));
            let j = choose|j: int| 0 <= j < f.rr.len() && f.rr[j] == q;
            assert(depth_of(f.dep_depths, f.rev_depths) <= f.rev_depths[j]);
        }
        assert(known(revs, nodes, f.rr[j0]) && v.arch_depth == node_of(nodes, f.rr[j0]).arch_depth);
    } else {
        assert(!exists|p: Seq<char>| #[trigger] known(deps, nodes, p)) by {
            if exists|p: Seq<char>| #[trigger] known(deps, nodes, p) {
                let p = choose|p: Seq<char>| #[trigger] known(deps, nodes, p);
                assert(f.rd.contains(p));
            }
        }
        assert(!exists|q: Seq<char>| #[trigger] known(revs, nodes, q)) by {
            if exists|q: Seq<char>| #[trigger] known(revs, nodes, q) {
                let q = choose|q: Seq<char>| #[trigger] known(revs, nodes, q);
                assert(f.rr.contains(q));
            }
        }
        assert(v.arch_depth == 0);
    }
}

/// Suggest where a new file, described by `description`, should go, given
/// the files it will depend on and those that will depend on it: the
/// cluster most of them belong to (the smallest name on ties), the layer
/// most of them are in, a depth one below the deepest dependency, a file
/// name made from the description that no known file has, and up to three
/// alternative clusters.
pub fn suggest_placement(
    description: &str,
    depends_on: &[CanonicalPath],
    depended_by: &[CanonicalPath],
    nodes: &TextMap<FileNode>,
    clusters: &TextMap<Cluster>,
    layer_index: &Vec<(u32, Vec<CanonicalPath>)>,
) -> (r: PlacementSuggestion)
    requires
        forall|i: int|
            0 <= i < depends_on@.len() ==> (#[trigger] nodes.spec_get(depends_on@[i]@) matches Some(n)
                ==> n.arch_depth < 0xffff_ffff),
    ensures
        r@ == placement_spec(description@, path_views(depends_on@), path_views(depended_by@), nodes, clusters),
{
    let _ = layer_index;
    let ghost deps = path_views(depends_on@);
    let ghost revs = path_views(depended_by@);
    let ghost f = facts(deps, revs, nodes);
    let dd = FileSet::from_slice(depends_on);
    let dr = FileSet::from_slice(depended_by);
    let mut cl: Vec<Vec<char>> = Vec::new();
    let mut layers: Vec<ArchLayer> = Vec::new();
    let (rd, dep_depths) = resolve_set(&dd, nodes, &mut cl, &mut layers);
    let (rr, rev_depths) = resolve_set(&dr, nodes, &mut cl, &mut layers);
    proof {
        assert(views(cl@) =~= f.cl);
        assert(layers@ =~= f.layers);
    }
    if rd.len() == 0 && rr.len() == 0 && clusters.is_empty() {
        return minimal_suggestion();
    }
    let rank = ranking_exec(&cl, 4);
    let mut reasoning: Vec<String> = Vec::new();
    assert(strings_view(reasoning@) =~= Seq::<Seq<char>>::empty());
    push_cluster_lines(&cl, &rank, &mut reasoning);
    assert(views(rank@) == f.rank);
    assert(strings_view(reasoning@) =~= cluster_lines(f));
    proof {
        lemma_present(f.dd, nodes);
        assert forall|i: int| 0 <= i < dep_depths@.len() implies #[trigger] dep_depths@[i] < 0xffff_ffff by {
            let p = f.rd[i];
            assert(f.dd.contains(p));
            assert(deps.contains(p));
            let k = choose|k: int| 0 <= k < deps.len() && deps[k] == p;
            assert(deps[k] == depends_on@[k]@);
        }
        lemma_max_below(dep_depths@, 0xffff_ffff);
    }
    let depth = push_conflict_line(&dep_depths, &rev_depths, &mut reasoning);
    assert(strings_view(reasoning@) =~= cluster_lines(f) + conflict_lines(f));
    let layer = layer_name_exec(&layers);
    let mut line = chars_of("Inferred architectural layer: ");
    push_all(&mut line, &chars_of(layer.as_str()));
    let ghost before_layer = strings_view(reasoning@);
    reasoning.push(string_of(&line));
    assert(strings_view(reasoning@) =~= before_layer.push(line@));
    assert(strings_view(reasoning@) =~= cluster_lines(f) + conflict_lines(f) + seq!["Inferred architectural layer: "@ + layer_name_spec(f.layers)]);
    let (prefix, ext) = if rank.len() > 0 {
        prefix_ext(clusters, &rank[0])
    } else {
        (Vec::new(), chars_of("rs"))
    };
    let name_s = sanitize_to_filename(description);
    let name = chars_of(name_s.as_str());
    let mut k: u64 = 1;
    let mut path = candidate_exec(&prefix, &name, &ext, 1);
    let mut taken = nodes.get(&crate::model::canonicalize(&path)).is_some();
    while k < 0xffff_fffe && taken
        invariant
            1 <= k <= 0xffff_fffe,
            path@ == candidate(prefix@, name@, ext@, k as nat),
            taken == (nodes.spec_get(canon_spec(path@)) is Some),
            first_free(nodes, prefix@, name@, ext@, 1) == first_free(nodes, prefix@, name@, ext@, k as nat),
        decreases 0xffff_fffe - k,
    {
        k += 1;
        path = candidate_exec(&prefix, &name, &ext, k);
        taken = nodes.get(&crate::model::canonicalize(&path)).is_some();
    }
    let ghost before_circ = strings_view(reasoning@);
    push_circular(&dd, &dr, &mut reasoning);
    assert(strings_view(reasoning@) =~= before_circ + circular_lines(f));
    proof {
        lemma_present_len(f.dd, nodes);
        lemma_present_len(f.dr, nodes);
    }
    let unresolved: u128 = (dd.len() - rd.len()) as u128 + (dr.len() - rr.len()) as u128;
    let ghost before_unres = strings_view(reasoning@);
    if unresolved > 0 {
        let mut l = dec(unresolved);
        push_all(&mut l, &chars_of(" dependency path(s) could not be resolved in the graph"));
        reasoning.push(string_of(&l));
        assert(strings_view(reasoning@) =~= before_unres.push(l@));
    }
    assert(strings_view(reasoning@) =~= before_unres + unresolved_lines(f));
    let alternatives = alternatives_exec(clusters, &name, &cl, &rank);
    let data_quality = if !nodes.is_empty() && !clusters.is_empty() && (rd.len() > 0 || rr.len() > 0) {
        DataQuality::Structured
    } else {
        DataQuality::Minimal
    };
    let cluster = if rank.len() > 0 {
        string_of(&rank[0])
    } else {
        String::new()
    };
    let r = PlacementSuggestion {
        suggested_path: string_of(&path),
        cluster,
        layer,
        arch_depth: depth,
        reasoning,
        alternatives,
        data_quality,
    };
    proof {
        assert(strings_view(r.reasoning@) =~= placement_spec(description@, deps, revs, nodes, clusters).reasoning);
    }
    r
}
} // verus!
