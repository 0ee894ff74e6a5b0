//! Character-sequence utilities shared by every parser of the crate.
//!
//! Text is modelled as `Seq<char>` (the view of `str` and `String`); the
//! executable helpers work on `Vec<char>` and are proved against the spec
//! functions below, which follow the behaviour of the corresponding `str`
//! methods of std.
use vstd::prelude::*;
use vstd::std_specs::iter::IteratorSpec;

verus! {

// ---------------------------------------------------------------------------
// Trusted: String::push
// ---------------------------------------------------------------------------

/// `String::push` appends one character: the view grows by that character.
pub assume_specification[ String::push ](string: &mut String, ch: char)
    ensures
        final(string)@ == old(string)@.push(ch),
;

// ---------------------------------------------------------------------------
// Spec vocabulary
// ---------------------------------------------------------------------------

/// Unicode `White_Space`, the property that `char::is_whitespace` tests.
pub open spec fn is_ws(c: char) -> bool {
    let u = c as u32;
    ||| 0x09 <= u <= 0x0D
    ||| u == 0x20
    ||| u == 0x85
    ||| u == 0xA0
    ||| u == 0x1680
    ||| 0x2000 <= u <= 0x200A
    ||| u == 0x2028
    ||| u == 0x2029
    ||| u == 0x202F
    ||| u == 0x205F
    ||| u == 0x3000
}

/// ASCII whitespace as `char::is_ascii_whitespace` defines it.
pub open spec fn is_ascii_ws(c: char) -> bool {
    c == ' ' || c == '\t' || c == '\n' || c == '\x0C' || c == '\r'
}

/// ASCII letters and digits.
pub open spec fn is_ascii_alnum(c: char) -> bool {
    ('a' <= c <= 'z') || ('A' <= c <= 'Z') || ('0' <= c <= '9')
}

/// `s` with leading whitespace removed (`str::trim_start`).
pub open spec fn trim_start_spec(s: Seq<char>) -> Seq<char>
    decreases s.len(),
{
    if s.len() > 0 && is_ws(s[0]) {
        trim_start_spec(s.drop_first())
    } else {
        s
    }
}

/// `s` with trailing whitespace removed (`str::trim_end`).
pub open spec fn trim_end_spec(s: Seq<char>) -> Seq<char>
    decreases s.len(),
{
    if s.len() > 0 && is_ws(s.last()) {
        trim_end_spec(s.drop_last())
    } else {
        s
    }
}

/// `s` with whitespace removed at both ends (`str::trim`).
pub open spec fn trim_spec(s: Seq<char>) -> Seq<char> {
    trim_end_spec(trim_start_spec(s))
}

/// `i` is the first position of `c` in `s`.
pub open spec fn is_first_char(s: Seq<char>, c: char, i: int) -> bool {
    &&& 0 <= i < s.len()
    &&& s[i] == c
    &&& forall|j: int| 0 <= j < i ==> s[j] != c
}

/// `i` is the last position of `c` in `s`.
pub open spec fn is_last_char(s: Seq<char>, c: char, i: int) -> bool {
    &&& 0 <= i < s.len()
    &&& s[i] == c
    &&& forall|j: int| i < j < s.len() ==> s[j] != c
}

/// First position of `c` in `s` (`str::find` with a char pattern).
pub open spec fn find_char_spec(s: Seq<char>, c: char) -> Option<int> {
    if exists|i: int| 0 <= i < s.len() && s[i] == c {
        Some(choose|i: int| is_first_char(s, c, i))
    } else {
        None
    }
}

/// Last position of `c` in `s` (`str::rfind` with a char pattern).
pub open spec fn rfind_char_spec(s: Seq<char>, c: char) -> Option<int> {
    if exists|i: int| 0 <= i < s.len() && s[i] == c {
        Some(choose|i: int| is_last_char(s, c, i))
    } else {
        None
    }
}

/// `p` occurs in `s` at position `i`.
pub open spec fn occurs_at(s: Seq<char>, p: Seq<char>, i: int) -> bool {
    0 <= i && i + p.len() <= s.len() && s.subrange(i, i + p.len()) == p
}

/// `i` is the first position where `p` occurs in `s`.
pub open spec fn is_first_occurrence(s: Seq<char>, p: Seq<char>, i: int) -> bool {
    &&& occurs_at(s, p, i)
    &&& forall|j: int| 0 <= j < i ==> !occurs_at(s, p, j)
}

/// First position of the pattern `p` in `s` (`str::find` with a string pattern).
pub open spec fn find_spec(s: Seq<char>, p: Seq<char>) -> Option<int> {
    if exists|i: int| occurs_at(s, p, i) {
        Some(choose|i: int| is_first_occurrence(s, p, i))
    } else {
        None
    }
}

/// `p` occurs somewhere in `s` (`str::contains`).
pub open spec fn contains_spec(s: Seq<char>, p: Seq<char>) -> bool {
    exists|i: int| occurs_at(s, p, i)
}

/// Drop one `'\r'` at the end of a line.
pub open spec fn strip_cr(l: Seq<char>) -> Seq<char> {
    if l.len() > 0 && l.last() == '\r' {
        l.drop_last()
    } else {
        l
    }
}

/// The lines of `s` as `str::lines` yields them: split at `'\n'`, a `'\r'`
/// before the `'\n'` removed, and no empty line after a final `'\n'`.
pub open spec fn lines_spec(s: Seq<char>) -> Seq<Seq<char>>
    decreases s.len(),
{
    if s.len() == 0 {
        seq![]
    } else {
        match find_char_spec(s, '\n') {
            Some(i) => {
                proof {
                    lemma_find_char(s, '\n');
                }
                seq![strip_cr(s.take(i))] + lines_spec(s.skip(i + 1))
            },
            None => seq![s],
        }
    }
}

/// Trimming never lengthens a text.
pub proof fn lemma_trim_len(s: Seq<char>)
    ensures
        trim_start_spec(s).len() <= s.len(),
        trim_end_spec(s).len() <= s.len(),
        trim_spec(s).len() <= s.len(),
    decreases s.len(),
{
    if s.len() > 0 {
        lemma_trim_len(s.drop_first());
        lemma_trim_len(s.drop_last());
    }
    lemma_trim_end_len(trim_start_spec(s));
}

/// Trimming the end never lengthens a text.
proof fn lemma_trim_end_len(s: Seq<char>)
    ensures
        trim_end_spec(s).len() <= s.len(),
    decreases s.len(),
{
    if s.len() > 0 {
        lemma_trim_end_len(s.drop_last());
    }
}

/// `str::lines` yields at most one more line than `s` has characters, and
/// no line longer than `s`.
pub proof fn lemma_lines_bounds(s: Seq<char>)
    ensures
        lines_spec(s).len() <= s.len() + 1,
        forall|i: int| 0 <= i < lines_spec(s).len() ==> #[trigger] lines_spec(s)[i].len() <= s.len(),
    decreases s.len(),
{
    if s.len() > 0 {
        lemma_find_char(s, '\n');
        match find_char_spec(s, '\n') {
            Some(k) => {
                lemma_lines_bounds(s.skip(k + 1));
                let ls = lines_spec(s);
                let rest = lines_spec(s.skip(k + 1));
                assert(ls == seq![strip_cr(s.take(k))] + rest);
                assert forall|i: int| 0 <= i < ls.len() implies #[trigger] ls[i].len() <= s.len() by {
                    if i > 0 {
                        assert(ls[i] == rest[i - 1]);
                    }
                }
            },
            None => {},
        }
    }
}

/// The pieces of `s` between occurrences of `c` (`str::split` with a char):
/// always one more piece than there are occurrences.
pub open spec fn split_spec(s: Seq<char>, c: char) -> Seq<Seq<char>>
    decreases s.len(),
{
    match find_char_spec(s, c) {
        Some(i) => {
            proof {
                lemma_find_char(s, c);
            }
            seq![s.take(i)] + split_spec(s.skip(i + 1), c)
        },
        None => seq![s],
    }
}

/// The pieces of `s` between occurrences of the text `p` (`str::split`
/// with a non-empty string pattern).
pub open spec fn split_str_spec(s: Seq<char>, p: Seq<char>) -> Seq<Seq<char>>
    decreases s.len(),
{
    if p.len() == 0 {
        seq![s]
    } else {
        match find_spec(s, p) {
            Some(i) => {
                proof {
                    lemma_find(s, p);
                }
                seq![s.take(i)] + split_str_spec(s.skip(i + p.len()), p)
            },
            None => seq![s],
        }
    }
}

/// Every occurrence of `from` replaced by `to`.
pub open spec fn replace_char_spec(s: Seq<char>, from: char, to: char) -> Seq<char> {
    s.map_values(|x: char| if x == from { to } else { x })
}

/// The character sequences held by a vector of character vectors.
pub open spec fn views(v: Seq<Vec<char>>) -> Seq<Seq<char>> {
    v.map_values(|x: Vec<char>| x@)
}

/// The first piece of `split_spec`: everything before the first `c`.
pub open spec fn before_char(s: Seq<char>, c: char) -> Seq<char> {
    match find_char_spec(s, c) {
        Some(i) => s.take(i),
        None => s,
    }
}

// ---------------------------------------------------------------------------
// Lemmas
// ---------------------------------------------------------------------------

/// What `find_char_spec` returns is the unique first position.
pub proof fn lemma_find_char(s: Seq<char>, c: char)
    ensures
        find_char_spec(s, c) matches Some(i) ==> is_first_char(s, c, i),
        find_char_spec(s, c) is None ==> forall|j: int| 0 <= j < s.len() ==> s[j] != c,
        forall|i: int| is_first_char(s, c, i) ==> find_char_spec(s, c) == Some(i),
{
    if exists|i: int| 0 <= i < s.len() && s[i] == c {
        let w = choose|i: int| 0 <= i < s.len() && s[i] == c;
        lemma_first_char_exists(s, c, w);
        let k = choose|i: int| is_first_char(s, c, i);
        assert forall|i: int| is_first_char(s, c, i) implies find_char_spec(s, c) == Some(i) by {
            if i < k {
                assert(s[i] != c);
            } else if k < i {
                assert(s[k] != c);
            }
        }
    }
}

proof fn lemma_first_char_exists(s: Seq<char>, c: char, w: int)
    requires
        0 <= w < s.len(),
        s[w] == c,
    ensures
        exists|i: int| is_first_char(s, c, i),
    decreases w,
{
    if exists|j: int| 0 <= j < w && s[j] == c {
        let j = choose|j: int| 0 <= j < w && s[j] == c;
        lemma_first_char_exists(s, c, j);
    } else {
        assert(is_first_char(s, c, w));
    }
}

/// What `rfind_char_spec` returns is the unique last position.
pub proof fn lemma_rfind_char(s: Seq<char>, c: char)
    ensures
        rfind_char_spec(s, c) matches Some(i) ==> is_last_char(s, c, i),
        rfind_char_spec(s, c) is None ==> forall|j: int| 0 <= j < s.len() ==> s[j] != c,
        forall|i: int| is_last_char(s, c, i) ==> rfind_char_spec(s, c) == Some(i),
{
    if exists|i: int| 0 <= i < s.len() && s[i] == c {
        let w = choose|i: int| 0 <= i < s.len() && s[i] == c;
        lemma_last_char_exists(s, c, w);
        let k = choose|i: int| is_last_char(s, c, i);
        assert forall|i: int| is_last_char(s, c, i) implies rfind_char_spec(s, c) == Some(i) by {
            if i < k {
                assert(s[k] != c);
            } else if k < i {
                assert(s[i] != c);
            }
        }
    }
}

proof fn lemma_last_char_exists(s: Seq<char>, c: char, w: int)
    requires
        0 <= w < s.len(),
        s[w] == c,
    ensures
        exists|i: int| is_last_char(s, c, i),
    decreases s.len() - w,
{
    if exists|j: int| w < j < s.len() && s[j] == c {
        let j = choose|j: int| w < j < s.len() && s[j] == c;
        lemma_last_char_exists(s, c, j);
    } else {
        assert(is_last_char(s, c, w));
    }
}

/// What `find_spec` returns is the unique first occurrence.
pub proof fn lemma_find(s: Seq<char>, p: Seq<char>)
    ensures
        find_spec(s, p) matches Some(i) ==> is_first_occurrence(s, p, i),
        find_spec(s, p) is None ==> forall|j: int| !occurs_at(s, p, j),
        forall|i: int| is_first_occurrence(s, p, i) ==> find_spec(s, p) == Some(i),
{
    if exists|i: int| occurs_at(s, p, i) {
        let w = choose|i: int| occurs_at(s, p, i);
        lemma_first_occurrence_exists(s, p, w);
        let k = choose|i: int| is_first_occurrence(s, p, i);
        assert forall|i: int| is_first_occurrence(s, p, i) implies find_spec(s, p) == Some(i) by {
            if i < k {
                assert(!occurs_at(s, p, i));
            } else if k < i {
                assert(!occurs_at(s, p, k));
            }
        }
    }
}

proof fn lemma_first_occurrence_exists(s: Seq<char>, p: Seq<char>, w: int)
    requires
        occurs_at(s, p, w),
    ensures
        exists|i: int| is_first_occurrence(s, p, i),
    decreases w,
{
    if exists|j: int| 0 <= j < w && occurs_at(s, p, j) {
        let j = choose|j: int| 0 <= j < w && occurs_at(s, p, j);
        lemma_first_occurrence_exists(s, p, j);
    } else {
        assert(is_first_occurrence(s, p, w));
    }
}

// ---------------------------------------------------------------------------
// Executable helpers
// ---------------------------------------------------------------------------

/// The characters of a string slice, in order.
pub fn chars_of(s: &str) -> (v: Vec<char>)
    ensures
        v@ == s@,
{
    let mut v: Vec<char> = Vec::new();
    for c in it: s.chars()
        invariant
            v@ == it.seq().take(it.index() as int),
            it.seq() == s@,
    {
        v.push(c);
    }
    v
}

/// A `String` holding exactly the given characters.
pub fn string_of(v: &Vec<char>) -> (s: String)
    ensures
        s@ == v@,
{
    let mut s = String::new();
    let mut i: usize = 0;
    while i < v.len()
        invariant
            i <= v.len(),
            s@ == v@.take(i as int),
        decreases v.len() - i,
    {
        s.push(v[i]);
        i += 1;
        assert(s@ == v@.take(i as int));
    }
    assert(v@.take(v.len() as int) == v@);
    s
}

/// The characters `v[lo..hi]`.
pub fn slice(v: &Vec<char>, lo: usize, hi: usize) -> (r: Vec<char>)
    requires
        lo <= hi <= v.len(),
    ensures
        r@ == v@.subrange(lo as int, hi as int),
{
    let mut r: Vec<char> = Vec::new();
    let mut i: usize = lo;
    while i < hi
        invariant
            lo <= i <= hi <= v.len(),
            r@ == v@.subrange(lo as int, i as int),
        decreases hi - i,
    {
        r.push(v[i]);
        i += 1;
        assert(r@ == v@.subrange(lo as int, i as int));
    }
    r
}

/// `a` followed by `b`.
pub fn concat(a: &Vec<char>, b: &Vec<char>) -> (r: Vec<char>)
    ensures
        r@ == a@ + b@,
{
    let mut r = a.clone();
    let mut i: usize = 0;
    while i < b.len()
        invariant
            i <= b.len(),
            r@ == a@ + b@.take(i as int),
        decreases b.len() - i,
    {
        r.push(b[i]);
        i += 1;
        assert(r@ == a@ + b@.take(i as int));
    }
    assert(b@.take(b.len() as int) == b@);
    r
}

/// Append the characters of `b` to `a`.
pub fn push_all(a: &mut Vec<char>, b: &Vec<char>)
    ensures
        final(a)@ == old(a)@ + b@,
{
    let ghost a0 = a@;
    let mut i: usize = 0;
    while i < b.len()
        invariant
            i <= b.len(),
            a@ == a0 + b@.take(i as int),
        decreases b.len() - i,
    {
        a.push(b[i]);
        i += 1;
        assert(a@ == a0 + b@.take(i as int));
    }
    assert(b@.take(b.len() as int) == b@);
}

/// Character-wise equality.
pub fn eq(a: &Vec<char>, b: &Vec<char>) -> (r: bool)
    ensures
        r == (a@ == b@),
{
    if a.len() != b.len() {
        return false;
    }
    let mut i: usize = 0;
    while i < a.len()
        invariant
            a.len() == b.len(),
            i <= a.len(),
            forall|j: int| 0 <= j < i ==> a@[j] == b@[j],
        decreases a.len() - i,
    {
        if a[i] != b[i] {
            return false;
        }
        i += 1;
    }
    assert(a@ == b@);
    true
}

/// Whether `c` is Unicode whitespace.
pub fn is_whitespace(c: char) -> (r: bool)
    ensures
        r == is_ws(c),
{
    let u = c as u32;
    (0x09 <= u && u <= 0x0D) || u == 0x20 || u == 0x85 || u == 0xA0 || u == 0x1680 || (0x2000
        <= u && u <= 0x200A) || u == 0x2028 || u == 0x2029 || u == 0x202F || u == 0x205F || u
        == 0x3000
}

/// Whether `c` is ASCII whitespace.
pub fn is_ascii_whitespace(c: char) -> (r: bool)
    ensures
        r == is_ascii_ws(c),
{
    c == ' ' || c == '\t' || c == '\n' || c == '\x0C' || c == '\r'
}

/// Whether `c` is an ASCII letter or digit.
pub fn is_ascii_alphanumeric(c: char) -> (r: bool)
    ensures
        r == is_ascii_alnum(c),
{
    ('a' <= c && c <= 'z') || ('A' <= c && c <= 'Z') || ('0' <= c && c <= '9')
}

proof fn lemma_trim_start_skip(s: Seq<char>, i: int)
    requires
        0 <= i < s.len(),
        is_ws(s[i]),
    ensures
        trim_start_spec(s.skip(i)) == trim_start_spec(s.skip(i + 1)),
{
    assert(s.skip(i).drop_first() == s.skip(i + 1));
}

proof fn lemma_trim_end_take(s: Seq<char>, j: int)
    requires
        0 < j <= s.len(),
        is_ws(s[j - 1]),
    ensures
        trim_end_spec(s.take(j)) == trim_end_spec(s.take(j - 1)),
{
    assert(s.take(j).drop_last() == s.take(j - 1));
}

/// Position of the first non-whitespace character (or the length).
fn first_non_ws(v: &Vec<char>) -> (i: usize)
    ensures
        i <= v.len(),
        trim_start_spec(v@) == v@.skip(i as int),
{
    let mut i: usize = 0;
    assert(v@.skip(0) == v@);
    while i < v.len() && is_whitespace(v[i])
        invariant
            i <= v.len(),
            trim_start_spec(v@) == trim_start_spec(v@.skip(i as int)),
        decreases v.len() - i,
    {
        proof {
            lemma_trim_start_skip(v@, i as int);
        }
        i += 1;
    }
    if i < v.len() {
        assert(v@.skip(i as int)[0] == v@[i as int]);
    } else {
        assert(v@.skip(i as int).len() == 0);
    }
    i
}

/// Position just after the last non-whitespace character (or zero).
fn end_non_ws(v: &Vec<char>) -> (j: usize)
    ensures
        j <= v.len(),
        trim_end_spec(v@) == v@.take(j as int),
{
    let mut j: usize = v.len();
    assert(v@.take(v.len() as int) == v@);
    while j > 0 && is_whitespace(v[j - 1])
        invariant
            j <= v.len(),
            trim_end_spec(v@) == trim_end_spec(v@.take(j as int)),
        decreases j,
    {
        proof {
            lemma_trim_end_take(v@, j as int);
        }
        j -= 1;
    }
    if j > 0 {
        assert(v@.take(j as int).last() == v@[j - 1]);
    }
    j
}

/// `str::trim_start`.
pub fn trim_start(v: &Vec<char>) -> (r: Vec<char>)
    ensures
        r@ == trim_start_spec(v@),
{
    let i = first_non_ws(v);
    slice(v, i, v.len())
}

/// `str::trim_end`.
pub fn trim_end(v: &Vec<char>) -> (r: Vec<char>)
    ensures
        r@ == trim_end_spec(v@),
{
    let j = end_non_ws(v);
    slice(v, 0, j)
}

/// `str::trim`.
pub fn trim(v: &Vec<char>) -> (r: Vec<char>)
    ensures
        r@ == trim_spec(v@),
{
    let a = trim_start(v);
    trim_end(&a)
}

/// First position of `c` at or after `from`.
pub fn find_char_from(v: &Vec<char>, c: char, from: usize) -> (r: Option<usize>)
    requires
        from <= v.len(),
    ensures
        match r {
            Some(i) => from <= i < v.len() && find_char_spec(v@.skip(from as int), c) == Some(
                i - from,
            ),
            None => find_char_spec(v@.skip(from as int), c) is None,
        },
{
    let ghost t = v@.skip(from as int);
    let mut i: usize = from;
    while i < v.len()
        invariant
            from <= i <= v.len(),
            t == v@.skip(from as int),
            forall|j: int| from <= j < i ==> v@[j] != c,
        decreases v.len() - i,
    {
        if v[i] == c {
            proof {
                assert forall|j: int| 0 <= j < i - from implies t[j] != c by {
                    assert(t[j] == v@[j + from]);
                }
                assert(t[i - from] == v@[i as int]);
                assert(is_first_char(t, c, i - from));
                lemma_find_char(t, c);
            }
            return Some(i);
        }
        i += 1;
    }
    proof {
        lemma_find_char(t, c);
        if exists|k: int| 0 <= k < t.len() && t[k] == c {
            let k = choose|k: int| 0 <= k < t.len() && t[k] == c;
            assert(t[k] == v@[k + from]);
        }
    }
    None
}

/// First position of `c` (`str::find`).
pub fn find_char(v: &Vec<char>, c: char) -> (r: Option<usize>)
    ensures
        match r {
            Some(i) => i < v.len() && find_char_spec(v@, c) == Some(i as int),
            None => find_char_spec(v@, c) is None,
        },
{
    assert(v@.skip(0) == v@);
    find_char_from(v, c, 0)
}

/// Last position of `c` (`str::rfind`).
pub fn rfind_char(v: &Vec<char>, c: char) -> (r: Option<usize>)
    ensures
        match r {
            Some(i) => i < v.len() && rfind_char_spec(v@, c) == Some(i as int),
            None => rfind_char_spec(v@, c) is None,
        },
{
    let mut i: usize = v.len();
    while i > 0
        invariant
            i <= v.len(),
            forall|j: int| i <= j < v.len() ==> v@[j] != c,
        decreases i,
    {
        if v[i - 1] == c {
            proof {
                assert(is_last_char(v@, c, i - 1));
                lemma_rfind_char(v@, c);
            }
            return Some(i - 1);
        }
        i -= 1;
    }
    proof {
        lemma_rfind_char(v@, c);
    }
    None
}

/// Whether the pattern `p` occurs in `v` at position `i`.
pub fn occurs_at_exec(v: &Vec<char>, p: &Vec<char>, i: usize) -> (r: bool)
    ensures
        r == occurs_at(v@, p@, i as int),
{
    if i > v.len() || p.len() > v.len() - i {
        return false;
    }
    let mut k: usize = 0;
    while k < p.len()
        invariant
            i + p.len() <= v.len(),
            k <= p.len(),
            forall|j: int| 0 <= j < k ==> v@[i + j] == p@[j],
        decreases p.len() - k,
    {
        if v[i + k] != p[k] {
            proof {
                if occurs_at(v@, p@, i as int) {
                    assert(v@.subrange(i as int, i + p.len())[k as int] == v@[i + k]);
                }
            }
            return false;
        }
        k += 1;
    }
    assert(v@.subrange(i as int, i + p.len()) =~= p@);
    true
}

/// First occurrence of `p` at or after `from`.
pub fn find_from(v: &Vec<char>, p: &Vec<char>, from: usize) -> (r: Option<usize>)
    requires
        from <= v.len(),
    ensures
        match r {
            Some(i) => from <= i && find_spec(v@.skip(from as int), p@) == Some(i - from)
                && occurs_at(v@, p@, i as int),
            None => find_spec(v@.skip(from as int), p@) is None,
        },
{
    let ghost t = v@.skip(from as int);
    let mut i: usize = from;
    loop
        invariant
            from <= i <= v.len(),
            t == v@.skip(from as int),
            forall|j: int| from <= j < i ==> !occurs_at(v@, p@, j),
        decreases v.len() - i,
    {
        if occurs_at_exec(v, p, i) {
            proof {
                lemma_occurs_skip(v@, p@, from as int);
                assert(is_first_occurrence(t, p@, i - from));
                lemma_find(t, p@);
            }
            return Some(i);
        }
        if i == v.len() {
            proof {
                lemma_occurs_skip(v@, p@, from as int);
                lemma_find(t, p@);
                if exists|k: int| occurs_at(t, p@, k) {
                    let k = choose|k: int| occurs_at(t, p@, k);
                    assert(occurs_at(v@, p@, k + from));
                }
            }
            return None;
        }
        i += 1;
    }
}

proof fn lemma_occurs_skip(s: Seq<char>, p: Seq<char>, from: int)
    requires
        0 <= from <= s.len(),
    ensures
        forall|k: int| #[trigger] occurs_at(s.skip(from), p, k) <==> (0 <= k && occurs_at(s, p, k + from)),
{
    assert forall|k: int| #[trigger] occurs_at(s.skip(from), p, k) <==> (0 <= k && occurs_at(s, p, k + from)) by {
        if 0 <= k && k + p.len() <= s.len() - from {
            assert(s.skip(from).subrange(k, k + p.len()) == s.subrange(k + from, k + from + p.len()));
        }
    }
}

/// First occurrence of `p` (`str::find`).
pub fn find(v: &Vec<char>, p: &Vec<char>) -> (r: Option<usize>)
    ensures
        match r {
            Some(i) => find_spec(v@, p@) == Some(i as int) && occurs_at(v@, p@, i as int),
            None => find_spec(v@, p@) is None,
        },
{
    assert(v@.skip(0) == v@);
    find_from(v, p, 0)
}

/// Whether `p` occurs in `v` (`str::contains`).
pub fn contains(v: &Vec<char>, p: &Vec<char>) -> (r: bool)
    ensures
        r == contains_spec(v@, p@),
{
    let r = find(v, p);
    proof {
        lemma_find(v@, p@);
    }
    r.is_some()
}

/// Whether `v` begins with `p` (`str::starts_with`).
pub fn starts_with(v: &Vec<char>, p: &Vec<char>) -> (r: bool)
    ensures
        r == p@.is_prefix_of(v@),
{
    let r = occurs_at_exec(v, p, 0);
    assert(r == occurs_at(v@, p@, 0));
    r
}

/// Whether `v` ends with `p` (`str::ends_with`).
pub fn ends_with(v: &Vec<char>, p: &Vec<char>) -> (r: bool)
    ensures
        r == p@.is_suffix_of(v@),
{
    if p.len() > v.len() {
        return false;
    }
    occurs_at_exec(v, p, v.len() - p.len())
}

/// Whether `v` starts with the character `c`.
pub fn starts_with_char(v: &Vec<char>, c: char) -> (r: bool)
    ensures
        r == (v@.len() > 0 && v@[0] == c),
{
    v.len() > 0 && v[0] == c
}

/// Whether `v` ends with the character `c`.
pub fn ends_with_char(v: &Vec<char>, c: char) -> (r: bool)
    ensures
        r == (v@.len() > 0 && v@.last() == c),
{
    v.len() > 0 && v[v.len() - 1] == c
}

/// Every `from` replaced by `to` (`str::replace` with char patterns).
pub fn replace_char(v: &Vec<char>, from: char, to: char) -> (r: Vec<char>)
    ensures
        r@ == replace_char_spec(v@, from, to),
{
    let mut r: Vec<char> = Vec::new();
    let mut i: usize = 0;
    while i < v.len()
        invariant
            i <= v.len(),
            r@ == replace_char_spec(v@.take(i as int), from, to),
        decreases v.len() - i,
    {
        if v[i] == from {
            r.push(to);
        } else {
            r.push(v[i]);
        }
        i += 1;
        assert(r@ =~= replace_char_spec(v@.take(i as int), from, to));
    }
    assert(v@.take(v.len() as int) == v@);
    r
}

proof fn lemma_lines_step(s: Seq<char>, start: int, i: int)
    requires
        0 <= start <= i < s.len(),
        find_char_spec(s.skip(start), '\n') == Some(i - start),
    ensures
        lines_spec(s.skip(start)) == seq![strip_cr(s.subrange(start, i))] + lines_spec(s.skip(i + 1)),
{
    let t = s.skip(start);
    assert(t.take(i - start) == s.subrange(start, i));
    assert(t.skip(i - start + 1) == s.skip(i + 1));
}

/// `str::lines`.
pub fn lines(v: &Vec<char>) -> (r: Vec<Vec<char>>)
    ensures
        views(r@) == lines_spec(v@),
{
    let mut r: Vec<Vec<char>> = Vec::new();
    let mut start: usize = 0;
    assert(v@.skip(0) == v@);
    while start < v.len()
        invariant
            start <= v.len(),
            views(r@) + lines_spec(v@.skip(start as int)) == lines_spec(v@),
        decreases v.len() - start,
    {
        match find_char_from(v, '\n', start) {
            Some(i) => {
                let mut line = slice(v, start, i);
                if line.len() > 0 && line[line.len() - 1] == '\r' {
                    line.pop();
                }
                proof {
                    lemma_lines_step(v@, start as int, i as int);
                }
                let ghost old_r = views(r@);
                r.push(line);
                assert(views(r@) =~= old_r.push(strip_cr(v@.subrange(start as int, i as int))));
                start = i + 1;
            },
            None => {
                let line = slice(v, start, v.len());
                let ghost old_r = views(r@);
                assert(v@.skip(start as int) == v@.subrange(start as int, v.len() as int));
                r.push(line);
                assert(views(r@) =~= old_r.push(v@.skip(start as int)));
                start = v.len();
                assert(v@.skip(start as int).len() == 0);
            },
        }
    }
    assert(v@.skip(start as int).len() == 0);
    assert(views(r@) + seq![] == views(r@));
    r
}

proof fn lemma_split_step(s: Seq<char>, c: char, start: int, i: int)
    requires
        0 <= start <= i < s.len(),
        find_char_spec(s.skip(start), c) == Some(i - start),
    ensures
        split_spec(s.skip(start), c) == seq![s.subrange(start, i)] + split_spec(s.skip(i + 1), c),
{
    let t = s.skip(start);
    assert(t.take(i - start) == s.subrange(start, i));
    assert(t.skip(i - start + 1) == s.skip(i + 1));
}

/// `str::split` with a character separator.
pub fn split_char(v: &Vec<char>, c: char) -> (r: Vec<Vec<char>>)
    ensures
        views(r@) == split_spec(v@, c),
        r.len() >= 1,
{
    let mut r: Vec<Vec<char>> = Vec::new();
    let mut start: usize = 0;
    assert(v@.skip(0) == v@);
    loop
        invariant
            start <= v.len(),
            views(r@) + split_spec(v@.skip(start as int), c) == split_spec(v@, c),
        decreases v.len() - start,
    {
        match find_char_from(v, c, start) {
            Some(i) => {
                let piece = slice(v, start, i);
                proof {
                    lemma_split_step(v@, c, start as int, i as int);
                }
                let ghost old_r = views(r@);
                r.push(piece);
                assert(views(r@) =~= old_r.push(v@.subrange(start as int, i as int)));
                start = i + 1;
            },
            None => {
                let piece = slice(v, start, v.len());
                let ghost old_r = views(r@);
                assert(v@.skip(start as int) == v@.subrange(start as int, v.len() as int));
                r.push(piece);
                assert(views(r@) =~= old_r.push(v@.skip(start as int)));
                return r;
            },
        }
    }
}

/// The pieces of `v` between occurrences of the non-empty text `p`.
pub fn split_str(v: &Vec<char>, p: &Vec<char>) -> (r: Vec<Vec<char>>)
    requires
        p@.len() > 0,
    ensures
        views(r@) == split_str_spec(v@, p@),
{
    let mut r: Vec<Vec<char>> = Vec::new();
    let mut start: usize = 0;
    assert(v@.skip(0) =~= v@);
    loop
        invariant
            start <= v@.len(),
            p@.len() > 0,
            views(r@) + split_str_spec(v@.skip(start as int), p@) == split_str_spec(v@, p@),
        decreases v@.len() - start,
    {
        let ghost rest = v@.skip(start as int);
        match find_from(v, p, start) {
            Some(i) => {
                proof {
                    lemma_find(rest, p@);
                    assert(rest.take(i - start) =~= v@.subrange(start as int, i as int));
                    assert(rest.skip(i - start + p@.len()) =~= v@.skip(i + p@.len()));
                }
                let piece = slice(v, start, i);
                let ghost before = views(r@);
                r.push(piece);
                assert(views(r@) =~= before.push(piece@));
                assert(views(r@) + split_str_spec(v@.skip(i + p@.len()), p@) =~= before + split_str_spec(rest, p@));
                start = i + p.len();
            },
            None => {
                let piece = slice(v, start, v.len());
                let ghost before = views(r@);
                r.push(piece);
                assert(piece@ =~= rest);
                assert(views(r@) =~= before + split_str_spec(rest, p@));
                return r;
            },
        }
    }
}

/// Everything before the first `c` (the first piece of `str::split`).
pub fn before_first(v: &Vec<char>, c: char) -> (r: Vec<char>)
    ensures
        r@ == before_char(v@, c),
{
    match find_char(v, c) {
        Some(i) => slice(v, 0, i),
        None => v.clone(),
    }
}

/// `v` without the prefix `p`, when `v` starts with it (`str::strip_prefix`).
pub fn strip_prefix(v: &Vec<char>, p: &Vec<char>) -> (r: Option<Vec<char>>)
    ensures
        match r {
            Some(rest) => p@.is_prefix_of(v@) && rest@ == v@.skip(p@.len() as int),
            None => !p@.is_prefix_of(v@),
        },
{
    if starts_with(v, p) {
        Some(slice(v, p.len(), v.len()))
    } else {
        None
    }
}

/// `v` without the suffix `p`, when `v` ends with it (`str::strip_suffix`).
pub fn strip_suffix(v: &Vec<char>, p: &Vec<char>) -> (r: Option<Vec<char>>)
    ensures
        match r {
            Some(rest) => p@.is_suffix_of(v@) && rest@ == v@.take(v@.len() - p@.len()),
            None => !p@.is_suffix_of(v@),
        },
{
    if ends_with(v, p) {
        Some(slice(v, 0, v.len() - p.len()))
    } else {
        None
    }
}


// ---------------------------------------------------------------------------
// Lexicographic order (the order of `str`/`String`)
// ---------------------------------------------------------------------------

/// `a` sorts strictly before `b` in the order of `str` (code point by code
/// point, a proper prefix first).
pub open spec fn seq_lt(a: Seq<char>, b: Seq<char>) -> bool
    decreases a.len(),
{
    if a.len() == 0 {
        b.len() > 0
    } else if b.len() == 0 {
        false
    } else if a[0] < b[0] {
        true
    } else if a[0] > b[0] {
        false
    } else {
        seq_lt(a.drop_first(), b.drop_first())
    }
}

/// The outcome of comparing two texts.
#[derive(Clone, Copy, Debug, PartialEq, Eq, Structural)]
pub enum TextOrder {
    Less,
    Equal,
    Greater,
}

/// `seq_lt` is irreflexive.
pub proof fn lemma_lt_irreflexive(a: Seq<char>)
    ensures
        !seq_lt(a, a),
    decreases a.len(),
{
    if a.len() > 0 {
        lemma_lt_irreflexive(a.drop_first());
    }
}

/// `seq_lt` is a strict total order: exactly one of `<`, `==`, `>` holds.
pub proof fn lemma_lt_total(a: Seq<char>, b: Seq<char>)
    ensures
        a == b || seq_lt(a, b) || seq_lt(b, a),
        !(seq_lt(a, b) && seq_lt(b, a)),
    decreases a.len(),
{
    if a.len() > 0 && b.len() > 0 && a[0] == b[0] {
        lemma_lt_total(a.drop_first(), b.drop_first());
        if a.drop_first() == b.drop_first() {
            assert(a =~= seq![a[0]] + a.drop_first());
            assert(b =~= seq![b[0]] + b.drop_first());
        }
    } else if a.len() == 0 && b.len() == 0 {
        assert(a =~= b);
    }
}

/// `seq_lt` is transitive.
pub proof fn lemma_lt_transitive(a: Seq<char>, b: Seq<char>, c: Seq<char>)
    requires
        seq_lt(a, b),
        seq_lt(b, c),
    ensures
        seq_lt(a, c),
    decreases a.len(),
{
    if a.len() > 0 && b.len() > 0 && c.len() > 0 && a[0] == b[0] && b[0] == c[0] {
        lemma_lt_transitive(a.drop_first(), b.drop_first(), c.drop_first());
    }
}

/// Compare two texts in the order of `str`.
pub fn compare_text(a: &Vec<char>, b: &Vec<char>) -> (r: TextOrder)
    ensures
        (r == TextOrder::Less) == seq_lt(a@, b@),
        (r == TextOrder::Equal) == (a@ == b@),
        (r == TextOrder::Greater) == seq_lt(b@, a@),
{
    let mut i: usize = 0;
    proof {
        assert(a@.skip(0) == a@);
        assert(b@.skip(0) == b@);
        lemma_lt_total(a@, b@);
    }
    while i < a.len() && i < b.len()
        invariant
            i <= a.len(),
            i <= b.len(),
            a@.take(i as int) == b@.take(i as int),
            seq_lt(a@, b@) == seq_lt(a@.skip(i as int), b@.skip(i as int)),
            seq_lt(b@, a@) == seq_lt(b@.skip(i as int), a@.skip(i as int)),
        decreases a.len() - i,
    {
        let x = a[i];
        let y = b[i];
        proof {
            assert(a@.skip(i as int)[0] == x);
            assert(b@.skip(i as int)[0] == y);
        }
        if x < y {
            proof {
                lemma_lt_total(a@, b@);
            }
            return TextOrder::Less;
        }
        if x > y {
            proof {
                lemma_lt_total(a@, b@);
            }
            return TextOrder::Greater;
        }
        proof {
            assert(a@.skip(i as int).drop_first() == a@.skip(i + 1));
            assert(b@.skip(i as int).drop_first() == b@.skip(i + 1));
            assert(a@.take(i + 1) == a@.take(i as int).push(x));
            assert(b@.take(i + 1) == b@.take(i as int).push(y));
        }
        i += 1;
    }
    proof {
        lemma_lt_total(a@, b@);
        if a.len() == b.len() {
            assert(a@ == a@.take(i as int));
            assert(b@ == b@.take(i as int));
        }
    }
    if a.len() < b.len() {
        TextOrder::Less
    } else if a.len() > b.len() {
        TextOrder::Greater
    } else {
        TextOrder::Equal
    }
}


// ---------------------------------------------------------------------------
// Joining
// ---------------------------------------------------------------------------

/// The parts one after the other.
pub open spec fn concat_all(parts: Seq<Seq<char>>) -> Seq<char>
    decreases parts.len(),
{
    if parts.len() == 0 {
        Seq::empty()
    } else {
        concat_all(parts.drop_last()) + parts.last()
    }
}

/// The parts separated by `sep` (`[&str]::join`).
pub open spec fn join_spec(parts: Seq<Seq<char>>, sep: char) -> Seq<char>
    decreases parts.len(),
{
    if parts.len() == 0 {
        seq![]
    } else if parts.len() == 1 {
        parts[0]
    } else {
        join_spec(parts.drop_last(), sep).push(sep) + parts.last()
    }
}

/// Joining a first part to more parts puts the separator between them.
pub proof fn lemma_join_cons(a: Seq<char>, r: Seq<Seq<char>>, sep: char)
    requires
        r.len() > 0,
    ensures
        join_spec(seq![a] + r, sep) == a.push(sep) + join_spec(r, sep),
    decreases r.len(),
{
    let t = seq![a] + r;
    if r.len() == 1 {
        assert(t.drop_last() =~= seq![a]);
        assert(join_spec(seq![a], sep) == a);
        assert(t.last() == r[0]);
        assert(join_spec(r, sep) == r[0]);
        assert(join_spec(t, sep) == join_spec(t.drop_last(), sep).push(sep) + t.last());
        assert(join_spec(t, sep) =~= a.push(sep) + join_spec(r, sep));
    } else {
        lemma_join_cons(a, r.drop_last(), sep);
        assert(t.drop_last() =~= seq![a] + r.drop_last());
        assert(t.last() == r.last());
        assert(join_spec(t, sep) == join_spec(t.drop_last(), sep).push(sep) + t.last());
        assert(join_spec(r, sep) == join_spec(r.drop_last(), sep).push(sep) + r.last());
        assert(join_spec(t, sep) =~= a.push(sep) + join_spec(r, sep));
    }
}

/// Splitting text that ends in `c` and a last piece without `c` gives the
/// pieces of the text before, then that last piece.
pub proof fn lemma_split_last(p: Seq<char>, q: Seq<char>, c: char)
    requires
        forall|i: int| 0 <= i < q.len() ==> q[i] != c,
    ensures
        split_spec(p + seq![c] + q, c) == split_spec(p, c) + seq![q],
    decreases p.len(),
{
    let s = p + seq![c] + q;
    lemma_find_char(s, c);
    lemma_find_char(p, c);
    match find_char_spec(p, c) {
        Some(i) => {
            assert(is_first_char(s, c, i));
            assert(s.take(i) =~= p.take(i));
            assert(s.skip(i + 1) =~= p.skip(i + 1) + seq![c] + q);
            lemma_split_last(p.skip(i + 1), q, c);
            assert(split_spec(s, c) == seq![s.take(i)] + split_spec(s.skip(i + 1), c));
            assert(split_spec(p, c) == seq![p.take(i)] + split_spec(p.skip(i + 1), c));
            assert(split_spec(s, c) =~= split_spec(p, c) + seq![q]);
        },
        None => {
            assert(is_first_char(s, c, p.len() as int));
            assert(s.take(p.len() as int) =~= p);
            assert(s.skip(p.len() as int + 1) =~= q);
            lemma_find_char(q, c);
            assert(split_spec(q, c) == seq![q]);
            assert(split_spec(s, c) =~= split_spec(p, c) + seq![q]);
        },
    }
}

/// Splitting at a character and joining with it gives the text back.
pub proof fn lemma_join_split(s: Seq<char>, c: char)
    ensures
        split_spec(s, c).len() > 0,
        join_spec(split_spec(s, c), c) == s,
    decreases s.len(),
{
    lemma_find_char(s, c);
    match find_char_spec(s, c) {
        Some(i) => {
            lemma_join_split(s.skip(i + 1), c);
            lemma_join_cons(s.take(i), split_spec(s.skip(i + 1), c), c);
            assert(s.take(i).push(c) + s.skip(i + 1) =~= s);
        },
        None => {},
    }
}

/// The parts separated by the text `sep`.
pub open spec fn join_with(parts: Seq<Seq<char>>, sep: Seq<char>) -> Seq<char>
    decreases parts.len(),
{
    if parts.len() == 0 {
        seq![]
    } else if parts.len() == 1 {
        parts[0]
    } else {
        join_with(parts.drop_last(), sep) + sep + parts.last()
    }
}

/// Join strings with the text `sep` between them.
pub fn join_strings(parts: &Vec<String>, sep: &str) -> (r: String)
    ensures
        r@ == join_with(parts@.map_values(|s: String| s@), sep@),
{
    let ghost ps = parts@.map_values(|s: String| s@);
    let mut r: Vec<char> = Vec::new();
    let sv = chars_of(sep);
    let mut i: usize = 0;
    while i < parts.len()
        invariant
            i <= parts.len(),
            ps == parts@.map_values(|s: String| s@),
            sv@ == sep@,
            r@ == join_with(ps.take(i as int), sep@),
        decreases parts.len() - i,
    {
        proof {
            assert(ps.take(i + 1).drop_last() =~= ps.take(i as int));
            assert(ps.take(i + 1).last() == parts@[i as int]@);
        }
        if i > 0 {
            push_all(&mut r, &sv);
        }
        push_all(&mut r, &chars_of(parts[i].as_str()));
        proof {
            if i == 0 {
                assert(ps.take(1) =~= seq![parts@[0]@]);
                assert(r@ =~= join_with(ps.take(1), sep@));
            } else {
                assert(r@ =~= join_with(ps.take(i + 1), sep@));
            }
        }
        i += 1;
    }
    assert(ps.take(parts@.len() as int) =~= ps);
    string_of(&r)
}

/// Join the parts with `sep` between them.
pub fn join(parts: &Vec<Vec<char>>, sep: char) -> (r: Vec<char>)
    ensures
        r@ == join_spec(views(parts@), sep),
{
    let mut r: Vec<char> = Vec::new();
    let mut i: usize = 0;
    while i < parts.len()
        invariant
            i <= parts.len(),
            r@ == join_spec(views(parts@.take(i as int)), sep),
        decreases parts.len() - i,
    {
        proof {
            assert(views(parts@.take(i + 1)).drop_last() =~= views(parts@.take(i as int)));
            assert(views(parts@.take(i + 1)).last() == parts@[i as int]@);
        }
        if i > 0 {
            r.push(sep);
        }
        push_all(&mut r, &parts[i]);
        i += 1;
        proof {
            if i == 1 {
                assert(views(parts@.take(1))[0] == parts@[0]@);
            }
        }
    }
    assert(parts@.take(parts.len() as int) == parts@);
    r
}


// ---------------------------------------------------------------------------
// Trimming a given character; text before a pattern
// ---------------------------------------------------------------------------

/// `s` without leading copies of `c` (`str::trim_start_matches` with a char).
pub open spec fn trim_start_char_spec(s: Seq<char>, c: char) -> Seq<char>
    decreases s.len(),
{
    if s.len() > 0 && s[0] == c {
        trim_start_char_spec(s.drop_first(), c)
    } else {
        s
    }
}

/// `s` without trailing copies of `c` (`str::trim_end_matches` with a char).
pub open spec fn trim_end_char_spec(s: Seq<char>, c: char) -> Seq<char>
    decreases s.len(),
{
    if s.len() > 0 && s.last() == c {
        trim_end_char_spec(s.drop_last(), c)
    } else {
        s
    }
}

/// `s` without copies of `c` at either end (`str::trim_matches` with a char).
pub open spec fn trim_char_spec(s: Seq<char>, c: char) -> Seq<char> {
    trim_end_char_spec(trim_start_char_spec(s, c), c)
}

/// `str::trim_start_matches` with a char.
pub fn trim_start_char(v: &Vec<char>, c: char) -> (r: Vec<char>)
    ensures
        r@ == trim_start_char_spec(v@, c),
{
    let mut i: usize = 0;
    assert(v@.skip(0) == v@);
    while i < v.len() && v[i] == c
        invariant
            i <= v.len(),
            trim_start_char_spec(v@, c) == trim_start_char_spec(v@.skip(i as int), c),
        decreases v.len() - i,
    {
        assert(v@.skip(i as int).drop_first() == v@.skip(i + 1));
        i += 1;
    }
    if i < v.len() {
        assert(v@.skip(i as int)[0] == v@[i as int]);
    }
    slice(v, i, v.len())
}

/// `str::trim_end_matches` with a char.
pub fn trim_end_char(v: &Vec<char>, c: char) -> (r: Vec<char>)
    ensures
        r@ == trim_end_char_spec(v@, c),
{
    let mut j: usize = v.len();
    assert(v@.take(v.len() as int) == v@);
    while j > 0 && v[j - 1] == c
        invariant
            j <= v.len(),
            trim_end_char_spec(v@, c) == trim_end_char_spec(v@.take(j as int), c),
        decreases j,
    {
        assert(v@.take(j as int).drop_last() == v@.take(j - 1));
        j -= 1;
    }
    if j > 0 {
        assert(v@.take(j as int).last() == v@[j - 1]);
    }
    slice(v, 0, j)
}

/// `str::trim_matches` with a char.
pub fn trim_char(v: &Vec<char>, c: char) -> (r: Vec<char>)
    ensures
        r@ == trim_char_spec(v@, c),
{
    let a = trim_start_char(v, c);
    trim_end_char(&a, c)
}

/// Everything before the first occurrence of `p` (the first piece of
/// `str::split` with a string pattern).
pub open spec fn before_pat(s: Seq<char>, p: Seq<char>) -> Seq<char> {
    match find_spec(s, p) {
        Some(i) => s.take(i),
        None => s,
    }
}

/// Everything before the first occurrence of `p`.
pub fn before_first_pat(v: &Vec<char>, p: &Vec<char>) -> (r: Vec<char>)
    ensures
        r@ == before_pat(v@, p@),
{
    match find(v, p) {
        Some(i) => slice(v, 0, i),
        None => v.clone(),
    }
}


// ---------------------------------------------------------------------------
// Membership in a list of words; text after a character
// ---------------------------------------------------------------------------

/// Whether `x` equals one of the words.
pub fn member(words: &Vec<Vec<char>>, x: &Vec<char>) -> (r: bool)
    ensures
        r == views(words@).contains(x@),
{
    let mut i: usize = 0;
    while i < words.len()
        invariant
            i <= words.len(),
            forall|j: int| 0 <= j < i ==> words@[j]@ != x@,
        decreases words.len() - i,
    {
        if eq(&words[i], x) {
            assert(views(words@)[i as int] == x@);
            return true;
        }
        i += 1;
    }
    proof {
        if views(words@).contains(x@) {
            let j = choose|j: int| 0 <= j < views(words@).len() && views(words@)[j] == x@;
            assert(words@[j]@ == x@);
        }
    }
    false
}

/// The text after the last `c`, or all of `s` when there is none (the first
/// piece that `str::rsplit` yields).
pub open spec fn after_last_char(s: Seq<char>, c: char) -> Seq<char> {
    match rfind_char_spec(s, c) {
        Some(i) => s.skip(i + 1),
        None => s,
    }
}

/// The text after the last `c`, or all of `v`.
pub fn after_last(v: &Vec<char>, c: char) -> (r: Vec<char>)
    ensures
        r@ == after_last_char(v@, c),
{
    match rfind_char(v, c) {
        Some(i) => slice(v, i + 1, v.len()),
        None => v.clone(),
    }
}

/// A vector of words from string literals, in order.
pub fn words_of(lits: &[&str]) -> (r: Vec<Vec<char>>)
    ensures
        r@.len() == lits@.len(),
        forall|i: int| 0 <= i < lits@.len() ==> #[trigger] r@[i]@ == lits@[i]@,
{
    let mut r: Vec<Vec<char>> = Vec::new();
    let mut i: usize = 0;
    while i < lits.len()
        invariant
            i <= lits@.len(),
            r@.len() == i,
            forall|j: int| 0 <= j < i ==> #[trigger] r@[j]@ == lits@[j]@,
        decreases lits@.len() - i,
    {
        r.push(chars_of(lits[i]));
        i += 1;
    }
    r
}


/// The decimal digit for `d < 10`.
pub open spec fn digit_char(d: nat) -> char {
    if d == 0 { '0' } else if d == 1 { '1' } else if d == 2 { '2' } else if d == 3 { '3' } else if d == 4 {
        '4'
    } else if d == 5 { '5' } else if d == 6 { '6' } else if d == 7 { '7' } else if d == 8 { '8' } else {
        '9'
    }
}

/// The decimal notation of `n`, as `u64::to_string` writes it.
pub open spec fn dec_spec(n: nat) -> Seq<char>
    decreases n,
{
    if n < 10 {
        seq![digit_char(n)]
    } else {
        dec_spec(n / 10).push(digit_char(n % 10))
    }
}

fn digit_exec(d: u128) -> (c: char)
    requires
        d < 10,
    ensures
        c == digit_char(d as nat),
{
    if d == 0 { '0' } else if d == 1 { '1' } else if d == 2 { '2' } else if d == 3 { '3' } else if d == 4 {
        '4'
    } else if d == 5 { '5' } else if d == 6 { '6' } else if d == 7 { '7' } else if d == 8 { '8' } else {
        '9'
    }
}

/// The decimal notation of `n`.
pub fn dec(n: u128) -> (r: Vec<char>)
    ensures
        r@ == dec_spec(n as nat),
    decreases n,
{
    if n < 10 {
        let mut v: Vec<char> = Vec::new();
        v.push(digit_exec(n));
        v
    } else {
        let mut v = dec(n / 10);
        v.push(digit_exec(n % 10));
        v
    }
}
} // verus!
