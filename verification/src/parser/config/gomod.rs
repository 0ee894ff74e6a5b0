//! `go.mod` parsing.
use vstd::prelude::*;

use crate::text::{
    before_first_pat, before_pat, chars_of, lines, lines_spec, string_of, strip_prefix, trim,
    trim_spec, views,
};

verus! {

/// Parsed go.mod configuration.
#[derive(Clone, Debug)]
pub struct GoModConfig {
    /// The module path (e.g., `github.com/user/repo`).
    pub module: String,
}

/// The module path a line declares, once `module ` is known to start it:
/// the rest of the trimmed line up to `//`, trimmed.
pub open spec fn module_candidate(line: Seq<char>) -> Seq<char> {
    trim_spec(before_pat(trim_spec(line).skip("module "@.len() as int), "//"@))
}

/// The line, trimmed, starts with `module ` and names a non-empty path.
pub open spec fn declares_module(line: Seq<char>) -> bool {
    "module "@.is_prefix_of(trim_spec(line)) && module_candidate(line).len() > 0
}

/// The module path of the first line that declares one.
pub open spec fn first_module(ls: Seq<Seq<char>>) -> Option<Seq<char>>
    decreases ls.len(),
{
    if ls.len() == 0 {
        None
    } else if declares_module(ls[0]) {
        Some(module_candidate(ls[0]))
    } else {
        first_module(ls.drop_first())
    }
}

/// Parse a go.mod file to extract the module path: the first line that,
/// trimmed, starts with `module ` and has a non-empty path before any `//`.
pub fn parse_go_mod(content: &str) -> (r: Option<GoModConfig>)
    ensures
        match r {
            Some(c) => first_module(lines_spec(content@)) == Some(c.module@),
            None => first_module(lines_spec(content@)) is None,
        },
{
    let text = chars_of(content);
    let ls = lines(&text);
    let prefix = chars_of("module ");
    let comment = chars_of("//");
    let ghost all = views(ls@);
    let mut i: usize = 0;
    assert(all.skip(0) == all);
    while i < ls.len()
        invariant
            all == views(ls@),
            all == lines_spec(content@),
            prefix@ == "module "@,
            comment@ == "//"@,
            i <= ls.len(),
            first_module(all) == first_module(all.skip(i as int)),
        decreases ls.len() - i,
    {
        let trimmed = trim(&ls[i]);
        proof {
            assert(all.skip(i as int)[0] == ls@[i as int]@);
            assert(all.skip(i as int).drop_first() == all.skip(i + 1));
        }
        if let Some(rest) = strip_prefix(&trimmed, &prefix) {
            let found = trim(&before_first_pat(&rest, &comment));
            if found.len() > 0 {
                return Some(GoModConfig { module: string_of(&found) });
            }
        }
        i += 1;
    }
    None
}

} // verus!
