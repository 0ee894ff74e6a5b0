//! Concrete syntax trees.
//!
//! Grammars are run by tree-sitter; its trees are copied, node by node in
//! preorder, into [`SyntaxTree`], a flat arena that the extractors of the
//! crate read and that the contracts speak of. Only the calls into
//! tree-sitter are trusted; the copy and everything read from it is proved.
use vstd::prelude::*;
use vstd::utf8::{decode_utf8, valid_utf8};
use crate::text::chars_of;

verus! {

// ---------------------------------------------------------------------------
// Trusted: tree-sitter
// ---------------------------------------------------------------------------

#[verifier::external_type_specification]
#[verifier::external_body]
pub struct ExTsLanguage(tree_sitter::Language);

#[verifier::external_type_specification]
#[verifier::external_body]
pub struct ExTsTree(tree_sitter::Tree);

/// What tree-sitter makes of `source` with grammar `g`: `None` when the
/// grammar is refused or no tree comes back; otherwise one row per node of
/// the tree, in preorder from the root.
pub uninterp spec fn ts_rows_of(g: Grammar, source: Seq<u8>) -> Option<Seq<RawNode>>;

/// A tree-sitter tree, with the grammar and the bytes it was parsed from.
pub struct TsParsed {
    tree: tree_sitter::Tree,
    grammar: Ghost<Grammar>,
    source: Ghost<Seq<u8>>,
}

impl TsParsed {
    /// The rows of the tree.
    pub closed spec fn rows(&self) -> Option<Seq<RawNode>> {
        ts_rows_of(self.grammar@, self.source@)
    }
}

/// `tree_sitter::Parser::new`, `Parser::set_language` and `Parser::parse`
/// of the whole buffer with no earlier tree: a tree exactly when the
/// grammar is accepted and the parser gives one back.
#[verifier::external_body]
fn ts_parse_source(g: Grammar, source: &[u8]) -> (r: Option<TsParsed>)
    ensures
        r is Some <==> ts_rows_of(g, source@) is Some,
        r matches Some(t) ==> t.rows() == ts_rows_of(g, source@),
{
    let mut p = tree_sitter::Parser::new();
    p.set_language(&language_of(g)).ok()?;
    let tree = p.parse(source, None)?;
    Some(TsParsed { tree, grammar: Ghost(g), source: Ghost(source@) })
}

/// `tree_sitter::Node::descendant_count` of the root: the number of nodes.
#[verifier::external_body]
fn ts_node_count(t: &TsParsed) -> (r: usize)
    requires
        t.rows() is Some,
    ensures
        r == t.rows()->0.len(),
{
    t.tree.root_node().descendant_count()
}

/// The node of preorder index `i`, reached by `TreeCursor::goto_descendant`
/// from a cursor on the root, as a row: `kind`, `TreeCursor::field_name`,
/// `TreeCursor::depth`, `is_named`, `is_error`, `has_error`, the byte range
/// and the rows of its start and end positions.
#[verifier::external_body]
fn ts_row(t: &TsParsed, i: usize) -> (r: RawNode)
    requires
        t.rows() matches Some(rows) && i < rows.len(),
    ensures
        r == t.rows()->0[i as int],
{
    let mut c = t.tree.root_node().walk();
    c.goto_descendant(i);
    let n = c.node();
    RawNode {
        kind: n.kind().to_string(), field: c.field_name().map(|f| f.to_string()),
        depth: c.depth() as usize, named: n.is_named(), error: n.is_error(), has_error: n.has_error(),
        start_byte: n.start_byte(), end_byte: n.end_byte(),
        start_row: n.start_position().row, end_row: n.end_position().row,
    }
}

/// The TypeScript grammar of `tree_sitter_typescript`.
#[verifier::external_body]
fn lang_typescript() -> tree_sitter::Language {
    tree_sitter::Language::from(tree_sitter_typescript::LANGUAGE_TYPESCRIPT)
}

/// The TSX grammar of `tree_sitter_typescript`.
#[verifier::external_body]
fn lang_tsx() -> tree_sitter::Language {
    tree_sitter::Language::from(tree_sitter_typescript::LANGUAGE_TSX)
}

/// The grammar of `tree_sitter_python`.
#[verifier::external_body]
fn lang_python() -> tree_sitter::Language {
    tree_sitter::Language::from(tree_sitter_python::LANGUAGE)
}

/// The grammar of `tree_sitter_rust`.
#[verifier::external_body]
fn lang_rust() -> tree_sitter::Language {
    tree_sitter::Language::from(tree_sitter_rust::LANGUAGE)
}

/// The grammar of `tree_sitter_go`.
#[verifier::external_body]
fn lang_go() -> tree_sitter::Language {
    tree_sitter::Language::from(tree_sitter_go::LANGUAGE)
}

/// The grammar of `tree_sitter_java`.
#[verifier::external_body]
fn lang_java() -> tree_sitter::Language {
    tree_sitter::Language::from(tree_sitter_java::LANGUAGE)
}

/// The grammar of `tree_sitter_c_sharp`.
#[verifier::external_body]
fn lang_csharp() -> tree_sitter::Language {
    tree_sitter::Language::from(tree_sitter_c_sharp::LANGUAGE)
}

/// The grammar of `tree_sitter_json`.
#[verifier::external_body]
fn lang_json() -> tree_sitter::Language {
    tree_sitter::Language::from(tree_sitter_json::LANGUAGE)
}

/// The grammar of `tree_sitter_yaml`.
#[verifier::external_body]
fn lang_yaml() -> tree_sitter::Language {
    tree_sitter::Language::from(tree_sitter_yaml::LANGUAGE)
}

/// The block grammar of `tree_sitter_md`.
#[verifier::external_body]
fn lang_markdown() -> tree_sitter::Language {
    tree_sitter::Language::from(tree_sitter_md::LANGUAGE)
}

/// `std::str::from_utf8`: `Some` exactly when the bytes are valid UTF-8,
/// holding the characters they encode.
#[verifier::external_body]
pub(crate) fn utf8_decode(bytes: &[u8]) -> (r: Option<String>)
    ensures
        r is Some <==> valid_utf8(bytes@),
        r matches Some(s) ==> s@ == decode_utf8(bytes@),
{
    match std::str::from_utf8(bytes) {
        Ok(s) => Some(s.to_string()),
        Err(_) => None,
    }
}

// ---------------------------------------------------------------------------
// The tree model
// ---------------------------------------------------------------------------

/// A grammar the crate parses with.
#[derive(Clone, Copy, Debug, PartialEq, Eq, Structural)]
pub enum Grammar {
    TypeScript,
    Tsx,
    Python,
    Rust,
    Go,
    Java,
    CSharp,
    Json,
    Yaml,
    Markdown,
}

/// One node as a preorder walk meets it: its depth below the root and what
/// the node says of itself.
#[derive(Clone, Debug)]
pub struct RawNode {
    pub kind: String,
    pub field: Option<String>,
    pub depth: usize,
    pub named: bool,
    pub error: bool,
    /// The node or a node below it is an error.
    pub has_error: bool,
    pub start_byte: usize,
    pub end_byte: usize,
    pub start_row: usize,
    pub end_row: usize,
}

/// One node of a [`SyntaxTree`].
#[derive(Clone, Debug)]
pub struct SyntaxNode {
    pub kind: String,
    pub field: Option<String>,
    pub named: bool,
    pub error: bool,
    /// The node or a node below it is an error.
    pub has_error: bool,
    pub start_byte: usize,
    pub end_byte: usize,
    pub start_row: usize,
    pub end_row: usize,
    pub parent: Option<usize>,
    pub children: Vec<usize>,
}

/// A syntax tree in preorder: node 0 is the root, every node's children
/// come after it and in source order.
#[derive(Debug)]
pub struct SyntaxTree {
    nodes: Vec<SyntaxNode>,
    source: Vec<u8>,
}

/// The depth sequence of a preorder walk: the root at depth 0, and every
/// later node at most one level below the node before it.
pub open spec fn valid_depths(d: Seq<int>) -> bool {
    &&& d.len() >= 1
    &&& d[0] == 0
    &&& forall|i: int| 1 <= i < d.len() ==> 1 <= #[trigger] d[i] <= d[i - 1] + 1
}

/// `p` is the parent of `i` in the walk of depths `d`: the last node before
/// `i` one level above it.
pub open spec fn is_parent(d: Seq<int>, p: int, i: int) -> bool {
    &&& 0 <= p < i < d.len()
    &&& d[p] == d[i] - 1
    &&& forall|k: int| p < k < i ==> #[trigger] d[k] >= d[i]
}

/// The depths of a sequence of raw nodes.
pub open spec fn raw_depths(r: Seq<RawNode>) -> Seq<int> {
    r.map_values(|n: RawNode| n.depth as int)
}

/// Node `c` lies below `p` and after it: the order that recursion on a tree follows.
pub open spec fn children_after(nodes: Seq<SyntaxNode>, i: int) -> bool {
    forall|k: int|
        0 <= k < nodes[i].children@.len() ==> i < #[trigger] nodes[i].children@[k] < nodes.len()
}

/// The shape every [`SyntaxTree`] has.
pub open spec fn tree_wf(nodes: Seq<SyntaxNode>, source_len: int) -> bool {
    &&& nodes.len() >= 1
    &&& forall|i: int| 0 <= i < nodes.len() ==> children_after(nodes, i)
    &&& forall|i: int|
        0 <= i < nodes.len() ==> #[trigger] nodes[i].start_byte <= nodes[i].end_byte <= source_len
            && nodes[i].start_row < 0xffff_ffff && nodes[i].end_row < 0xffff_ffff
}

/// The characters of the source bytes `b[lo..hi]`, if they are valid UTF-8.
pub open spec fn text_opt_of(b: Seq<u8>, lo: int, hi: int) -> Option<Seq<char>> {
    let s = b.subrange(lo, hi);
    if valid_utf8(s) {
        Some(decode_utf8(s))
    } else {
        None
    }
}

/// Concatenation of `f` over the elements of `s`, in order.
pub open spec fn flat_map<A, B>(s: Seq<A>, f: spec_fn(A) -> Seq<B>) -> Seq<B>
    decreases s.len(),
{
    if s.len() == 0 {
        Seq::empty()
    } else {
        flat_map(s.drop_last(), f) + f(s.last())
    }
}

/// The first image under `f` that is something, in order.
pub open spec fn first_some<A, B>(s: Seq<A>, f: spec_fn(A) -> Option<B>) -> Option<B>
    decreases s.len(),
{
    if s.len() == 0 {
        None
    } else if f(s[0]) is Some {
        f(s[0])
    } else {
        first_some(s.drop_first(), f)
    }
}

/// Searching from position `k` on: stepping past an element whose image is
/// nothing keeps the answer.
pub proof fn lemma_first_some_step<A, B>(s: Seq<A>, f: spec_fn(A) -> Option<B>, k: int)
    requires
        0 <= k < s.len(),
    ensures
        s.skip(k)[0] == s[k],
        first_some(s.skip(k), f) == if f(s[k]) is Some { f(s[k]) } else { first_some(s.skip(k + 1), f) },
{
    assert(s.skip(k).drop_first() =~= s.skip(k + 1));
}

/// One more element extends the concatenation by its image.
pub proof fn lemma_flat_map_step<A, B>(s: Seq<A>, f: spec_fn(A) -> Seq<B>, k: int)
    requires
        0 <= k < s.len(),
    ensures
        flat_map(s.take(k + 1), f) == flat_map(s.take(k), f) + f(s[k]),
{
    assert(s.take(k + 1).drop_last() =~= s.take(k));
}

/// The characters of the source bytes `b[lo..hi]`, or nothing where they are
/// not valid UTF-8.
pub open spec fn text_of(b: Seq<u8>, lo: int, hi: int) -> Seq<char> {
    let s = b.subrange(lo, hi);
    if valid_utf8(s) {
        decode_utf8(s)
    } else {
        Seq::empty()
    }
}

impl SyntaxTree {
    #[verifier::type_invariant]
    closed spec fn inv(self) -> bool {
        tree_wf(self.nodes@, self.source@.len() as int)
    }

    /// The nodes, in preorder.
    pub closed spec fn nodes(&self) -> Seq<SyntaxNode> {
        self.nodes@
    }

    /// The source the tree was parsed from.
    pub closed spec fn source(&self) -> Seq<u8> {
        self.source@
    }

    /// Number of nodes.
    pub open spec fn size(&self) -> int {
        self.nodes().len() as int
    }

    /// The kind of node `i`.
    pub open spec fn kind_of(&self, i: int) -> Seq<char> {
        self.nodes()[i].kind@
    }

    /// The children of node `i`.
    pub open spec fn children_of(&self, i: int) -> Seq<usize> {
        self.nodes()[i].children@
    }

    /// The text of node `i`.
    pub open spec fn text_at(&self, i: int) -> Seq<char> {
        text_of(self.source(), self.nodes()[i].start_byte as int, self.nodes()[i].end_byte as int)
    }

    /// The text of node `i`, if its bytes are valid UTF-8 (`Node::utf8_text`).
    pub open spec fn text_opt_at(&self, i: int) -> Option<Seq<char>> {
        text_opt_of(self.source(), self.nodes()[i].start_byte as int, self.nodes()[i].end_byte as int)
    }

    /// The field under which node `i` hangs, if any.
    pub open spec fn field_of(&self, i: int) -> Option<Seq<char>> {
        match self.nodes()[i].field {
            Some(f) => Some(f@),
            None => None,
        }
    }

    /// The first child of `i` under field `f`.
    pub open spec fn field_child(&self, i: int, f: Seq<char>) -> Option<int> {
        let ch = self.children_of(i);
        if exists|k: int| 0 <= k < ch.len() && self.field_of(ch[k] as int) == Some(f) {
            let k = choose|k: int|
                0 <= k < ch.len() && self.field_of(ch[k] as int) == Some(f) && forall|m: int|
                    0 <= m < k ==> self.field_of(ch[m] as int) != Some(f);
            Some(ch[k] as int)
        } else {
            None
        }
    }

    /// Number of nodes.
    pub fn len(&self) -> (r: usize)
        ensures
            r == self.size(),
            r >= 1,
    {
        proof {
            use_type_invariant(self);
        }
        self.nodes.len()
    }

    /// Node `i`.
    pub fn node(&self, i: usize) -> (r: &SyntaxNode)
        requires
            i < self.size(),
        ensures
            *r == self.nodes()[i as int],
            children_after(self.nodes(), i as int),
            r.start_row < 0xffff_ffff,
            r.end_row < 0xffff_ffff,
    {
        proof {
            use_type_invariant(self);
            assert(self.nodes@[i as int].start_byte <= self.nodes@[i as int].end_byte);
        }
        &self.nodes[i]
    }

    /// The kind of node `i`.
    pub fn kind(&self, i: usize) -> (r: &str)
        requires
            i < self.size(),
        ensures
            r@ == self.kind_of(i as int),
    {
        self.nodes[i].kind.as_str()
    }

    /// The children of node `i`, in source order.
    pub fn children(&self, i: usize) -> (r: &Vec<usize>)
        requires
            i < self.size(),
        ensures
            r@ == self.children_of(i as int),
            forall|k: int| 0 <= k < r@.len() ==> i < #[trigger] r@[k] < self.size(),
    {
        proof {
            use_type_invariant(self);
            assert(children_after(self.nodes@, i as int));
        }
        &self.nodes[i].children
    }

    /// The whole source as text; empty where it is not valid UTF-8.
    pub fn source_text(&self) -> (r: String)
        ensures
            r@ == text_of(self.source(), 0, self.source().len() as int),
    {
        assert(self.source@.subrange(0, self.source@.len() as int) =~= self.source@);
        match utf8_decode(self.source.as_slice()) {
            Some(s) => s,
            None => crate::text::string_of(&Vec::new()),
        }
    }

    /// The text of node `i`; empty where the bytes are not valid UTF-8.
    pub fn text(&self, i: usize) -> (r: String)
        requires
            i < self.size(),
        ensures
            r@ == self.text_at(i as int),
    {
        proof {
            use_type_invariant(self);
        }
        let lo = self.nodes[i].start_byte;
        let hi = self.nodes[i].end_byte;
        let mut buf: Vec<u8> = Vec::new();
        let mut k = lo;
        while k < hi
            invariant
                lo <= k <= hi <= self.source@.len(),
                buf@ == self.source@.subrange(lo as int, k as int),
            decreases hi - k,
        {
            buf.push(self.source[k]);
            k += 1;
            assert(buf@ == self.source@.subrange(lo as int, k as int));
        }
        match utf8_decode(buf.as_slice()) {
            Some(s) => s,
            None => String::new(),
        }
    }

    /// The text of node `i`, if its bytes are valid UTF-8.
    pub fn text_opt(&self, i: usize) -> (r: Option<Vec<char>>)
        requires
            i < self.size(),
        ensures
            match r {
                Some(v) => self.text_opt_at(i as int) == Some(v@),
                None => self.text_opt_at(i as int) is None,
            },
    {
        proof {
            use_type_invariant(self);
        }
        let lo = self.nodes[i].start_byte;
        let hi = self.nodes[i].end_byte;
        let mut buf: Vec<u8> = Vec::new();
        let mut k = lo;
        while k < hi
            invariant
                lo <= k <= hi <= self.source@.len(),
                buf@ == self.source@.subrange(lo as int, k as int),
            decreases hi - k,
        {
            buf.push(self.source[k]);
            k += 1;
            assert(buf@ == self.source@.subrange(lo as int, k as int));
        }
        match utf8_decode(buf.as_slice()) {
            Some(s) => Some(chars_of(s.as_str())),
            None => None,
        }
    }

    /// The text of node `i`, as characters.
    pub fn text_chars(&self, i: usize) -> (r: Vec<char>)
        requires
            i < self.size(),
        ensures
            r@ == self.text_at(i as int),
    {
        let s = self.text(i);
        chars_of(s.as_str())
    }

    /// Whether node `i` has kind `k`.
    pub fn is_kind(&self, i: usize, k: &str) -> (r: bool)
        requires
            i < self.size(),
        ensures
            r == (self.kind_of(i as int) == k@),
    {
        let a = chars_of(self.nodes[i].kind.as_str());
        let b = chars_of(k);
        crate::text::eq(&a, &b)
    }

    /// The first child of `i` under field `f` (`Node::child_by_field_name`).
    pub fn child_by_field(&self, i: usize, f: &str) -> (r: Option<usize>)
        requires
            i < self.size(),
        ensures
            r == match self.field_child(i as int, f@) {
                Some(c) => Some(c as usize),
                None => None::<usize>,
            },
            r matches Some(c) ==> i < c < self.size(),
    {
        proof {
            use_type_invariant(self);
        }
        let ch = &self.nodes[i].children;
        let want = chars_of(f);
        let mut k: usize = 0;
        while k < ch.len()
            invariant
                0 <= k <= ch@.len(),
                ch@ == self.children_of(i as int),
                want@ == f@,
                i < self.nodes@.len(),
                children_after(self.nodes@, i as int),
                forall|m: int| 0 <= m < k ==> self.field_of(ch@[m] as int) != Some(f@),
            decreases ch.len() - k,
        {
            let c = ch[k];
            match &self.nodes[c].field {
                Some(name) => {
                    if crate::text::eq(&chars_of(name.as_str()), &want) {
                        proof {
                            let kk = k as int;
                            assert(0 <= kk < ch@.len() && self.field_of(ch@[kk] as int) == Some(f@));
                            let j = choose|j: int|
                                0 <= j < ch@.len() && self.field_of(ch@[j] as int) == Some(f@)
                                    && forall|m: int|
                                    0 <= m < j ==> self.field_of(ch@[m] as int) != Some(f@);
                            if j < kk {
                            } else if j > kk {
                                assert(self.field_of(ch@[kk] as int) != Some(f@));
                            }
                        }
                        return Some(c);
                    }
                },
                None => {},
            }
            k += 1;
        }
        None
    }

    /// The first child of `i` of kind `kind` (`find_child_by_kind`).
    pub fn child_of_kind(&self, i: usize, kind: &str) -> (r: Option<usize>)
        requires
            i < self.size(),
        ensures
            r == first_child_of_kind(self, i as int, kind@),
            r matches Some(c) ==> i < c < self.size(),
    {
        proof {
            use_type_invariant(self);
        }
        let ch = &self.nodes[i].children;
        let mut k: usize = 0;
        while k < ch.len()
            invariant
                0 <= k <= ch@.len(),
                ch@ == self.children_of(i as int),
                i < self.nodes@.len(),
                children_after(self.nodes@, i as int),
                forall|m: int| 0 <= m < k ==> self.kind_of(ch@[m] as int) != kind@,
            decreases ch.len() - k,
        {
            let c = ch[k];
            if self.is_kind(c, kind) {
                proof {
                    let kk = k as int;
                    assert(0 <= kk < ch@.len() && self.kind_of(ch@[kk] as int) == kind@);
                    let j = choose|j: int|
                        0 <= j < ch@.len() && self.kind_of(ch@[j] as int) == kind@ && forall|m: int|
                            0 <= m < j ==> self.kind_of(ch@[m] as int) != kind@;
                    if j > kk {
                        assert(self.kind_of(ch@[kk] as int) != kind@);
                    }
                }
                return Some(c);
            }
            k += 1;
        }
        None
    }
}

/// The first child of `i` whose kind is `kind`.
pub open spec fn first_child_of_kind(t: &SyntaxTree, i: int, kind: Seq<char>) -> Option<usize> {
    let ch = t.children_of(i);
    if exists|k: int| 0 <= k < ch.len() && t.kind_of(ch[k] as int) == kind {
        let k = choose|k: int|
            0 <= k < ch.len() && t.kind_of(ch[k] as int) == kind && forall|m: int|
                0 <= m < k ==> t.kind_of(ch[m] as int) != kind;
        Some(ch[k])
    } else {
        None
    }
}


/// Node `n` carries what the raw node `r` says of itself.
pub open spec fn node_matches(n: SyntaxNode, r: RawNode) -> bool {
    &&& n.kind == r.kind
    &&& n.field == r.field
    &&& n.named == r.named
    &&& n.error == r.error
    &&& n.has_error == r.has_error
    &&& n.start_byte == r.start_byte
    &&& n.end_byte == r.end_byte
    &&& n.start_row == r.start_row
    &&& n.end_row == r.end_row
}

/// The entries of `s` increase strictly.
pub open spec fn increasing(s: Seq<usize>) -> bool {
    forall|a: int, b: int| 0 <= a < b < s.len() ==> #[trigger] s[a] < #[trigger] s[b]
}

/// The raw nodes have byte ranges inside a source of `len` bytes.
pub open spec fn raw_ranges_ok(r: Seq<RawNode>, len: int) -> bool {
    forall|i: int|
        0 <= i < r.len() ==> #[trigger] r[i].start_byte <= r[i].end_byte <= len && r[i].start_row
            < 0xffff_ffff && r[i].end_row < 0xffff_ffff
}

/// What [`build_tree`] makes of a walk: one node per raw node, each hung
/// from its parent in the walk, children in walk order.
pub open spec fn tree_of_walk(t: SyntaxTree, raws: Seq<RawNode>, source: Seq<u8>) -> bool {
    let n = raws.len() as int;
    &&& t.size() == n
    &&& t.source() == source
    &&& forall|i: int| 0 <= i < n ==> node_matches(#[trigger] t.nodes()[i], raws[i])
    &&& t.nodes()[0].parent is None
    &&& forall|i: int|
        1 <= i < n ==> (#[trigger] t.nodes()[i].parent matches Some(p) && is_parent(
            raw_depths(raws),
            p as int,
            i,
        ))
    &&& forall|p: int, j: int|
        0 <= p < n && 0 <= j < n ==> (#[trigger] t.children_of(p).contains(j as usize) <==> #[trigger] t.nodes()[j].parent
            == Some(p as usize))
    &&& forall|p: int| 0 <= p < n ==> increasing(#[trigger] t.children_of(p))
}

fn clone_opt(o: &Option<String>) -> (r: Option<String>)
    ensures
        r == *o,
{
    match o {
        Some(s) => Some(s.clone()),
        None => None,
    }
}

proof fn lemma_ranges_extend(raws: Seq<RawNode>, len: int, i: int)
    requires
        0 <= i < raws.len(),
        raw_ranges_ok(raws.take(i), len),
        raws[i].start_byte <= raws[i].end_byte <= len,
        raws[i].start_row < 0xffff_ffff,
        raws[i].end_row < 0xffff_ffff,
    ensures
        raw_ranges_ok(raws.take(i + 1), len),
{
    assert forall|j: int| 0 <= j < i + 1 implies #[trigger] raws.take(i + 1)[j].start_byte
        <= raws.take(i + 1)[j].end_byte <= len && raws.take(i + 1)[j].start_row < 0xffff_ffff
        && raws.take(i + 1)[j].end_row < 0xffff_ffff by {
        if j < i {
            assert(raws.take(i)[j] == raws.take(i + 1)[j]);
        }
    }
}

/// Assemble a tree from a preorder walk: `Some` exactly when the depths
/// form a walk and every byte range lies inside `source`.
#[verifier::rlimit(40)]
pub fn build_tree(raws: &Vec<RawNode>, source: Vec<u8>) -> (r: Option<SyntaxTree>)
    ensures
        r is Some <==> (valid_depths(raw_depths(raws@)) && raw_ranges_ok(raws@, source@.len() as int)),
        r matches Some(t) ==> tree_of_walk(t, raws@, source@),
{
    let ghost d = raw_depths(raws@);
    let n = raws.len();
    if n == 0 {
        return None;
    }
    if raws[0].depth != 0 {
        assert(d[0] != 0);
        return None;
    }
    let mut nodes: Vec<SyntaxNode> = Vec::new();
    let mut stack: Vec<usize> = Vec::new();
    let mut i: usize = 0;
    while i < n
        invariant
            n == raws@.len(),
            d == raw_depths(raws@),
            d[0] == 0,
            n >= 1,
            i <= n,
            nodes@.len() == i,
            forall|j: int| 1 <= j < i ==> 1 <= #[trigger] d[j] <= d[j - 1] + 1,
            raw_ranges_ok(raws@.take(i as int), source@.len() as int),
            forall|j: int| 0 <= j < i ==> node_matches(#[trigger] nodes@[j], raws@[j]),
            i > 0 ==> nodes@[0].parent is None,
            forall|j: int|
                1 <= j < i ==> (#[trigger] nodes@[j].parent matches Some(p) && is_parent(d, p as int, j)),
            forall|p: int, j: int|
                0 <= p < i && 0 <= j < i ==> (#[trigger] nodes@[p].children@.contains(j as usize)
                    <==> #[trigger] nodes@[j].parent == Some(p as usize)),
            forall|p: int| 0 <= p < i ==> increasing(#[trigger] nodes@[p].children@),
            forall|p: int, k: int|
                0 <= p < i && 0 <= k < nodes@[p].children@.len() ==> p < #[trigger] nodes@[p].children@[k] < i,
            i > 0 ==> stack@.len() == d[i - 1] + 1,
            i == 0 ==> stack@.len() == 0,
            forall|k: int| 0 <= k < stack@.len() ==> #[trigger] stack@[k] < i && d[stack@[k] as int] == k,
            forall|k: int, m: int| #![trigger stack@[k], d[m]] 0 <= k < stack@.len() && stack@[k] < m < i ==> d[m] > k,
        decreases n - i,
    {
        let r = &raws[i];
        assert(d[i as int] == r.depth);
        if r.start_byte > r.end_byte || r.end_byte > source.len() || r.start_row >= 0xffff_ffff
            || r.end_row >= 0xffff_ffff {
            assert(!raw_ranges_ok(raws@, source@.len() as int));
            return None;
        }
        let parent: Option<usize> = if i == 0 {
            None
        } else {
            if r.depth == 0 || r.depth > stack.len() {
                assert(!valid_depths(d));
                return None;
            }
            stack.truncate(r.depth);
            Some(stack[r.depth - 1])
        };
        let ghost old_nodes = nodes@;
        if let Some(p) = parent {
            nodes[p].children.push(i);
        }
        let node = SyntaxNode {
            kind: r.kind.clone(),
            field: clone_opt(&r.field),
            named: r.named,
            error: r.error,
            has_error: r.has_error,
            start_byte: r.start_byte,
            end_byte: r.end_byte,
            start_row: r.start_row,
            end_row: r.end_row,
            parent,
            children: Vec::new(),
        };
        nodes.push(node);
        stack.push(i);
        proof {
            let ii = i as int;
            lemma_ranges_extend(raws@, source@.len() as int, ii);
            assert forall|p: int, j: int|
                0 <= p < ii + 1 && 0 <= j < ii + 1 implies (#[trigger] nodes@[p].children@.contains(j as usize)
                    <==> #[trigger] nodes@[j].parent == Some(p as usize)) by {
                if let Some(qq) = parent {
                    let q = qq as int;
                    if p == q && j == ii {
                        assert(nodes@[p].children@[nodes@[p].children@.len() - 1] == ii as usize);
                    }
                    if p == q && j < ii {
                        assert(nodes@[p].children@ == old_nodes[p].children@.push(ii as usize));
                        if nodes@[p].children@.contains(j as usize) {
                            let k = choose|k: int| 0 <= k < nodes@[p].children@.len() && nodes@[p].children@[k] == j as usize;
                            assert(old_nodes[p].children@[k] == j as usize);
                        }
                        if old_nodes[p].children@.contains(j as usize) {
                            let k = choose|k: int| 0 <= k < old_nodes[p].children@.len() && old_nodes[p].children@[k] == j as usize;
                            assert(nodes@[p].children@[k] == j as usize);
                        }
                    }
                    if p == ii && nodes@[p].children@.contains(j as usize) {
                        assert(nodes@[p].children@.len() == 0);
                    }
                    if p < ii && j == ii && p != q {
                        assert(nodes@[p].children@ == old_nodes[p].children@);
                        if old_nodes[p].children@.contains(j as usize) {
                            let k = choose|k: int| 0 <= k < old_nodes[p].children@.len() && old_nodes[p].children@[k] == j as usize;
                            assert(old_nodes[p].children@[k] < ii);
                        }
                    }
                    if p == q && j == ii {
                    }
                } else {
                    if j == ii && p < ii && old_nodes[p].children@.contains(j as usize) {
                        let k = choose|k: int| 0 <= k < old_nodes[p].children@.len() && old_nodes[p].children@[k] == j as usize;
                        assert(old_nodes[p].children@[k] < ii);
                    }
                }
            }
            assert forall|p: int| 0 <= p < ii + 1 implies increasing(#[trigger] nodes@[p].children@) by {
                if let Some(qq) = parent {
                    let q = qq as int;
                    if p == q {
                        assert(nodes@[p].children@ == old_nodes[p].children@.push(ii as usize));
                        assert forall|a: int, b: int| 0 <= a < b < nodes@[p].children@.len() implies #[trigger] nodes@[p].children@[a] < #[trigger] nodes@[p].children@[b] by {
                            if b == nodes@[p].children@.len() - 1 {
                                assert(old_nodes[p].children@[a] < ii);
                            }
                        }
                    }
                }
            }
            assert forall|p: int, k: int|
                0 <= p < ii + 1 && 0 <= k < nodes@[p].children@.len() implies p < #[trigger] nodes@[p].children@[k] < ii + 1 by {
                if let Some(qq) = parent {
                    let q = qq as int;
                    if p == q && k < old_nodes[p].children@.len() {
                        assert(nodes@[p].children@[k] == old_nodes[p].children@[k]);
                    }
                }
            }
            if ii > 0 {
                let q = parent->0 as int;
                assert(is_parent(d, q, ii));
            }
            assert forall|k: int, m: int| #![trigger stack@[k], d[m]] 0 <= k < stack@.len() && stack@[k] < m < ii + 1 implies d[m] > k by {
                if m < ii {
                }
            }
        }
        i += 1;
    }
    proof {
        assert(raws@.take(n as int) =~= raws@);
    }
    let t = SyntaxTree { nodes, source };
    proof {
        assert forall|q: int| 0 <= q < t.nodes@.len() implies children_after(t.nodes@, q) by {
            assert forall|k: int| 0 <= k < t.nodes@[q].children@.len() implies q < #[trigger] t.nodes@[q].children@[k] < t.nodes@.len() by {
            }
        }
        assert(t.children_of(0) == t.nodes@[0].children@);
    }
    Some(t)
}

/// The grammar's language object.
fn language_of(g: Grammar) -> tree_sitter::Language {
    match g {
        Grammar::TypeScript => lang_typescript(),
        Grammar::Tsx => lang_tsx(),
        Grammar::Python => lang_python(),
        Grammar::Rust => lang_rust(),
        Grammar::Go => lang_go(),
        Grammar::Java => lang_java(),
        Grammar::CSharp => lang_csharp(),
        Grammar::Json => lang_json(),
        Grammar::Yaml => lang_yaml(),
        Grammar::Markdown => lang_markdown(),
    }
}

/// How well a file parsed.
#[derive(Clone, Copy, Debug, PartialEq, Eq, Structural)]
pub enum ParseQuality {
    /// No top-level node is an error.
    Clean,
    /// Some, but at most half, of the top-level nodes are errors.
    Partial,
    /// More than half of the top-level nodes are errors.
    Failed,
}

/// How many of the nodes `cs` are error nodes.
pub open spec fn error_count(t: &SyntaxTree, cs: Seq<usize>) -> nat
    decreases cs.len(),
{
    if cs.len() == 0 {
        0
    } else {
        error_count(t, cs.drop_last()) + if t.nodes()[cs.last() as int].error {
            1nat
        } else {
            0nat
        }
    }
}

/// How well the file of tree `t` parsed: when the root holds an error and
/// has children, by the share of its children that are error nodes; more
/// than half fails the file, any makes it partial.
pub open spec fn quality_of(t: &SyntaxTree) -> ParseQuality {
    let cs = t.children_of(0);
    let errors = error_count(t, cs);
    if !t.nodes()[0].has_error || cs.len() == 0 {
        ParseQuality::Clean
    } else if errors * 2 > cs.len() {
        ParseQuality::Failed
    } else if errors > 0 {
        ParseQuality::Partial
    } else {
        ParseQuality::Clean
    }
}

/// Classify a parsed file (see [`quality_of`]).
pub fn outcome_of(t: &SyntaxTree) -> (r: ParseQuality)
    ensures
        r == quality_of(t),
{
    let _n: usize = t.len();
    let root = t.node(0);
    let cs = t.children(0);
    if !root.has_error || cs.len() == 0 {
        return ParseQuality::Clean;
    }
    let mut errors: usize = 0;
    let mut i: usize = 0;
    while i < cs.len()
        invariant
            i <= cs@.len(),
            cs@ == t.children_of(0),
            forall|k: int| 0 <= k < cs@.len() ==> 0 < #[trigger] cs@[k] < t.size(),
            errors == error_count(t, cs@.take(i as int)),
            errors <= i,
        decreases cs.len() - i,
    {
        proof {
            assert(cs@.take(i + 1).drop_last() =~= cs@.take(i as int));
            assert(cs@.take(i + 1).last() == cs@[i as int]);
        }
        if t.node(cs[i]).error {
            errors = errors + 1;
        }
        i += 1;
    }
    assert(cs@.take(cs@.len() as int) =~= cs@);
    if errors as u128 * 2 > cs.len() as u128 {
        ParseQuality::Failed
    } else if errors > 0 {
        ParseQuality::Partial
    } else {
        ParseQuality::Clean
    }
}

/// Tree-sitter's rows for `source` form a well-formed walk inside it.
pub open spec fn parses(g: Grammar, source: Seq<u8>) -> bool {
    ts_rows_of(g, source) matches Some(rows) && valid_depths(raw_depths(rows)) && raw_ranges_ok(
        rows,
        source.len() as int,
    )
}

/// `t` is the tree of tree-sitter's rows for `source`.
pub open spec fn parsed_as(g: Grammar, source: Seq<u8>, t: SyntaxTree) -> bool {
    ts_rows_of(g, source) matches Some(rows) && tree_of_walk(t, rows, source)
}

/// Parse `source` with grammar `g` and copy the tree: `None` when the
/// grammar is refused, when tree-sitter gives no tree, or when its rows do
/// not form a well-formed walk inside `source`; otherwise the tree of those
/// rows.
pub fn parse(g: Grammar, source: &[u8]) -> (r: Option<SyntaxTree>)
    ensures
        r is Some <==> parses(g, source@),
        r matches Some(t) ==> parsed_as(g, source@, t),
{
    let tree = match ts_parse_source(g, source) {
        Some(t) => t,
        None => return None,
    };
    let count = ts_node_count(&tree);
    let ghost rows = tree.rows()->0;
    let mut raws: Vec<RawNode> = Vec::new();
    let mut i: usize = 0;
    while i < count
        invariant
            i <= count,
            tree.rows() == Some(rows),
            count == rows.len(),
            raws@ == rows.take(i as int),
        decreases count - i,
    {
        raws.push(ts_row(&tree, i));
        i += 1;
        assert(raws@ =~= rows.take(i as int));
    }
    assert(rows.take(count as int) =~= rows);
    let mut bytes: Vec<u8> = Vec::new();
    let mut k: usize = 0;
    while k < source.len()
        invariant
            k <= source@.len(),
            bytes@ == source@.take(k as int),
        decreases source.len() - k,
    {
        bytes.push(source[k]);
        k += 1;
        assert(bytes@ == source@.take(k as int));
    }
    assert(source@.take(source@.len() as int) == source@);
    build_tree(&raws, bytes)
}

/// Whether tree-sitter reports an error anywhere in the parse of `source`:
/// the root's `has_error`; `false` when there is no tree.
pub fn parse_has_error(g: Grammar, source: &[u8]) -> (r: bool)
    ensures
        r == (ts_rows_of(g, source@) matches Some(rows) && rows.len() > 0 && rows[0].has_error),
{
    match ts_parse_source(g, source) {
        Some(t) => {
            if ts_node_count(&t) > 0 {
                ts_row(&t, 0).has_error
            } else {
                false
            }
        },
        None => false,
    }
}

} // verus!
