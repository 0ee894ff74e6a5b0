//! Removal of JSONC comments and trailing commas.
use vstd::prelude::*;

use crate::text::{chars_of, is_ascii_whitespace, is_ascii_ws, string_of};

verus! {

/// Where a `//` comment that starts its body at `j` ends: the next newline
/// (which is kept) or the end of the input.
pub open spec fn line_comment_end(b: Seq<char>, j: int) -> int
    decreases b.len() - j,
{
    if j >= b.len() || b[j] == '\n' {
        j
    } else {
        line_comment_end(b, j + 1)
    }
}

/// Where scanning resumes after a `/*` comment whose body starts at `j`:
/// just after the first `*/`, or, when there is none, at the last character
/// of the input (which is then read as ordinary text).
pub open spec fn block_comment_end(b: Seq<char>, j: int) -> int
    decreases b.len() - j,
{
    if j + 1 >= b.len() {
        j
    } else if b[j] == '*' && b[j + 1] == '/' {
        j + 2
    } else {
        block_comment_end(b, j + 1)
    }
}

/// The characters kept from position `i` on, in or out of a string literal.
pub open spec fn comment_scan(b: Seq<char>, i: int, in_string: bool) -> Seq<char>
    decreases b.len() - i, if in_string { 1int } else { 0int },
{
    if i < 0 || i >= b.len() {
        seq![]
    } else if in_string {
        if b[i] == '\\' && i + 1 < b.len() {
            seq![b[i], b[i + 1]] + comment_scan(b, i + 2, true)
        } else if b[i] == '"' {
            seq![b[i]] + comment_scan(b, i + 1, false)
        } else {
            seq![b[i]] + comment_scan(b, i + 1, true)
        }
    } else if b[i] == '"' {
        seq!['"'] + comment_scan(b, i + 1, true)
    } else if b[i] == '/' && i + 1 < b.len() && b[i + 1] == '/' {
        proof {
            lemma_line_comment_end(b, i + 2);
        }
        comment_scan(b, line_comment_end(b, i + 2), false)
    } else if b[i] == '/' && i + 1 < b.len() && b[i + 1] == '*' {
        proof {
            lemma_block_comment_end(b, i + 2);
        }
        comment_scan(b, block_comment_end(b, i + 2), false)
    } else {
        seq![b[i]] + comment_scan(b, i + 1, false)
    }
}

pub proof fn lemma_line_comment_end(b: Seq<char>, j: int)
    ensures
        line_comment_end(b, j) >= j,
        j <= b.len() ==> line_comment_end(b, j) <= b.len(),
    decreases b.len() - j,
{
    if !(j >= b.len() || b[j] == '\n') {
        lemma_line_comment_end(b, j + 1);
    }
}

pub proof fn lemma_block_comment_end(b: Seq<char>, j: int)
    ensures
        block_comment_end(b, j) >= j,
        j + 1 < b.len() ==> block_comment_end(b, j) <= b.len(),
        j + 1 < b.len() ==> block_comment_end(b, j) > j,
    decreases b.len() - j,
{
    if !(j + 1 >= b.len()) && !(b[j] == '*' && b[j + 1] == '/') {
        lemma_block_comment_end(b, j + 1);
    }
}

/// A `]` or `}` follows position `j`, with only ASCII whitespace between.
pub open spec fn closer_follows(c: Seq<char>, j: int) -> bool {
    exists|k: int|
        j <= k < c.len() && (c[k] == ']' || c[k] == '}') && (forall|m: int|
            j <= m < k ==> is_ascii_ws(#[trigger] c[m]))
}

/// The character at `i` survives: it is not a comma that only whitespace
/// separates from a closing bracket or brace.
pub open spec fn comma_kept(c: Seq<char>, i: int) -> bool {
    !(c[i] == ',' && closer_follows(c, i + 1))
}

/// The characters kept from position `i` on.
pub open spec fn comma_scan(c: Seq<char>, i: int) -> Seq<char>
    decreases c.len() - i,
{
    if i < 0 || i >= c.len() {
        seq![]
    } else if comma_kept(c, i) {
        seq![c[i]] + comma_scan(c, i + 1)
    } else {
        comma_scan(c, i + 1)
    }
}

/// The result of `strip_jsonc_comments` on the text `s`.
pub open spec fn strip_jsonc_spec(s: Seq<char>) -> Seq<char> {
    comma_scan(comment_scan(s, 0, false), 0)
}

/// Strip JSONC comments and trailing commas so that a JSON parser accepts
/// the result. `//` and `/* */` comments outside string literals go, and so
/// does every comma followed, after ASCII whitespace only, by `]` or `}`.
/// Every other character is kept as it is.
#[verifier::loop_isolation(false)]
pub fn strip_jsonc_comments(input: &str) -> (r: String)
    ensures
        r@ == strip_jsonc_spec(input@),
{
    let cs = chars_of(input);
    let len = cs.len();
    let ghost b = cs@;
    let mut out: Vec<char> = Vec::new();
    let mut i: usize = 0;
    let mut in_string = false;
    while i < len
        invariant
            b == cs@,
            len == b.len(),
            i <= len,
            out@ + comment_scan(b, i as int, in_string) == comment_scan(b, 0, false),
        decreases len - i, if in_string { 1int } else { 0int },
    {
        let ch = cs[i];
        if in_string {
            let ghost o = out@;
            out.push(ch);
            if ch == '\\' && i + 1 < len {
                i += 1;
                out.push(cs[i]);
                i += 1;
                assert(out@ == o + seq![ch, b[i - 1]]);
            } else if ch == '"' {
                in_string = false;
                i += 1;
                assert(out@ == o + seq![ch]);
            } else {
                i += 1;
                assert(out@ == o + seq![ch]);
            }
            continue;
        }
        if ch == '"' {
            let ghost o = out@;
            in_string = true;
            out.push('"');
            i += 1;
            assert(out@ == o + seq!['"']);
        } else if ch == '/' && i + 1 < len && cs[i + 1] == '/' {
            i += 2;
            let ghost start = i as int;
            while i < len && cs[i] != '\n'
                invariant
                    b == cs@,
                    len == b.len(),
                    i <= len,
                    start <= i,
                    line_comment_end(b, i as int) == line_comment_end(b, start),
                decreases len - i,
            {
                i += 1;
            }
        } else if ch == '/' && i + 1 < len && cs[i + 1] == '*' {
            i += 2;
            let ghost start = i as int;
            while len > 0 && i < len - 1 && !(cs[i] == '*' && cs[i + 1] == '/')
                invariant
                    b == cs@,
                    len == b.len(),
                    i <= len,
                    start <= i,
                    block_comment_end(b, i as int) == block_comment_end(b, start),
                decreases len - i,
            {
                i += 1;
            }
            if i < len - 1 {
                i += 2;
            }
        } else {
            let ghost o = out@;
            out.push(ch);
            i += 1;
            assert(out@ == o + seq![ch]);
        }
    }
    assert(out@ + seq![] == out@);
    strip_trailing_commas(&out)
}

/// Remove every comma that only ASCII whitespace separates from a following
/// `]` or `}`; the whitespace itself stays.
pub fn strip_trailing_commas(chars: &Vec<char>) -> (r: String)
    ensures
        r@ == comma_scan(chars@, 0),
{
    let len = chars.len();
    let mut result: Vec<char> = Vec::new();
    let mut i: usize = 0;
    while i < len
        invariant
            len == chars@.len(),
            i <= len,
            result@ + comma_scan(chars@, i as int) == comma_scan(chars@, 0),
        decreases len - i,
    {
        if chars[i] == ',' {
            let mut j = i + 1;
            while j < len && is_ascii_whitespace(chars[j])
                invariant
                    len == chars@.len(),
                    i < j <= len,
                    forall|m: int| i + 1 <= m < j ==> is_ascii_ws(#[trigger] chars@[m]),
                decreases len - j,
            {
                j += 1;
            }
            if j < len && (chars[j] == ']' || chars[j] == '}') {
                assert(closer_follows(chars@, i + 1));
                i += 1;
                continue;
            }
            proof {
                if closer_follows(chars@, i + 1) {
                    let k = choose|k: int|
                        i + 1 <= k < chars@.len() && (chars@[k] == ']' || chars@[k] == '}') && (
                        forall|m: int| i + 1 <= m < k ==> is_ascii_ws(#[trigger] chars@[m]));
                    if k > j {
                        assert(is_ascii_ws(chars@[j as int]));
                    }
                }
            }
        }
        let ghost o = result@;
        result.push(chars[i]);
        i += 1;
        assert(result@ == o + seq![chars@[i - 1]]);
    }
    assert(result@ + seq![] == result@);
    string_of(&result)
}

} // verus!
