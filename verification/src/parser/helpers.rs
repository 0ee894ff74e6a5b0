//! Small helpers shared by the parsers.
use vstd::prelude::*;
use crate::parser::typescript::strip_string_spec;
use crate::text::{chars_of, slice, string_of};

verus! {

/// Strip one pair of surrounding quotes (double, single or backtick) when
/// the text starts and ends with the same one.
pub fn strip_quotes(s: &str) -> (r: String)
    ensures
        r@ == strip_string_spec(s@),
{
    let v = chars_of(s);
    let n = v.len();
    if n >= 2 && (v[0] == '"' || v[0] == '\'' || v[0] == '`') && v[0] == v[n - 1] {
        string_of(&slice(&v, 1, n - 1))
    } else {
        string_of(&v)
    }
}

} // verus!
