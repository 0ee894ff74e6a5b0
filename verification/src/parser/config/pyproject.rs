//! `pyproject.toml` inspection by plain line scanning.
use vstd::prelude::*;

use crate::text::{
    chars_of, contains, contains_spec, eq, find_char, find_char_spec, lines, lines_spec, slice,
    starts_with, starts_with_char, string_of, trim, trim_char, trim_char_spec, trim_spec, views,
};

verus! {

/// Parsed pyproject.toml configuration.
#[derive(Clone, Debug)]
pub struct PyProjectConfig {
    /// Whether the project uses src-layout (packages under `src/`).
    pub src_layout: bool,
    /// The package name from `[project]` section, if found.
    pub package_name: Option<String>,
}

/// Whether a trimmed line opens a section.
pub open spec fn opens_section(t: Seq<char>) -> bool {
    t.len() > 0 && t[0] == '['
}

/// Scan for `where = [... "src" ...]` inside `[tool.setuptools.packages.find]`.
pub open spec fn src_layout_scan(ls: Seq<Seq<char>>, in_find: bool) -> bool
    decreases ls.len(),
{
    if ls.len() == 0 {
        false
    } else {
        let t = trim_spec(ls[0]);
        if t == "[tool.setuptools.packages.find]"@ {
            src_layout_scan(ls.drop_first(), true)
        } else {
            let still = in_find && !opens_section(t);
            if still && "where"@.is_prefix_of(t) && (contains_spec(t, "\"src\""@) || contains_spec(
                t,
                "'src'"@,
            )) {
                true
            } else {
                src_layout_scan(ls.drop_first(), still)
            }
        }
    }
}

/// The name a `name = ...` line gives: the text after the first `=`,
/// trimmed, stripped of double then single quotes at both ends, trimmed.
pub open spec fn name_value(t: Seq<char>) -> Seq<char> {
    match find_char_spec(t, '=') {
        Some(k) => trim_spec(trim_char_spec(trim_char_spec(trim_spec(t.skip(k + 1)), '"'), '\'')),
        None => seq![],
    }
}

/// Scan for the first non-empty `name` entry of the `[project]` section.
pub open spec fn package_name_scan(ls: Seq<Seq<char>>, in_project: bool) -> Option<Seq<char>>
    decreases ls.len(),
{
    if ls.len() == 0 {
        None
    } else {
        let t = trim_spec(ls[0]);
        if t == "[project]"@ {
            package_name_scan(ls.drop_first(), true)
        } else {
            let still = in_project && !opens_section(t);
            if still && "name"@.is_prefix_of(t) && name_value(t).len() > 0 {
                Some(name_value(t))
            } else {
                package_name_scan(ls.drop_first(), still)
            }
        }
    }
}

/// Detect src-layout: a `where` line naming `"src"` or `'src'` in the
/// `[tool.setuptools.packages.find]` section.
pub fn detect_src_layout(content: &str) -> (r: bool)
    ensures
        r == src_layout_scan(lines_spec(content@), false),
{
    let text = chars_of(content);
    let ls = lines(&text);
    let header = chars_of("[tool.setuptools.packages.find]");
    let key = chars_of("where");
    let dq = chars_of("\"src\"");
    let sq = chars_of("'src'");
    let ghost all = views(ls@);
    let mut in_find = false;
    let mut i: usize = 0;
    assert(all.skip(0) == all);
    while i < ls.len()
        invariant
            all == views(ls@),
            all == lines_spec(content@),
            header@ == "[tool.setuptools.packages.find]"@,
            key@ == "where"@,
            dq@ == "\"src\""@,
            sq@ == "'src'"@,
            i <= ls.len(),
            src_layout_scan(all, false) == src_layout_scan(all.skip(i as int), in_find),
        decreases ls.len() - i,
    {
        let t = trim(&ls[i]);
        proof {
            assert(all.skip(i as int)[0] == ls@[i as int]@);
            assert(all.skip(i as int).drop_first() == all.skip(i + 1));
        }
        if eq(&t, &header) {
            in_find = true;
        } else {
            if starts_with_char(&t, '[') && in_find {
                in_find = false;
            }
            if in_find && starts_with(&t, &key) {
                if contains(&t, &dq) || contains(&t, &sq) {
                    return true;
                }
            }
        }
        i += 1;
    }
    false
}

/// The value of a `name = ...` line.
fn name_value_of(t: &Vec<char>) -> (r: Vec<char>)
    ensures
        r@ == name_value(t@),
{
    match find_char(t, '=') {
        Some(k) => {
            let value = trim(&slice(t, k + 1, t.len()));
            trim(&trim_char(&trim_char(&value, '"'), '\''))
        },
        None => Vec::new(),
    }
}

/// Extract the package name from the `[project]` section.
pub fn extract_package_name(content: &str) -> (r: Option<String>)
    ensures
        match r {
            Some(n) => package_name_scan(lines_spec(content@), false) == Some(n@),
            None => package_name_scan(lines_spec(content@), false) is None,
        },
{
    let text = chars_of(content);
    let ls = lines(&text);
    let header = chars_of("[project]");
    let key = chars_of("name");
    let ghost all = views(ls@);
    let mut in_project = false;
    let mut i: usize = 0;
    assert(all.skip(0) == all);
    while i < ls.len()
        invariant
            all == views(ls@),
            all == lines_spec(content@),
            header@ == "[project]"@,
            key@ == "name"@,
            i <= ls.len(),
            package_name_scan(all, false) == package_name_scan(all.skip(i as int), in_project),
        decreases ls.len() - i,
    {
        let t = trim(&ls[i]);
        proof {
            assert(all.skip(i as int)[0] == ls@[i as int]@);
            assert(all.skip(i as int).drop_first() == all.skip(i + 1));
        }
        if eq(&t, &header) {
            in_project = true;
        } else {
            if starts_with_char(&t, '[') && in_project {
                in_project = false;
            }
            if in_project && starts_with(&t, &key) {
                let name = name_value_of(&t);
                if name.len() > 0 {
                    return Some(string_of(&name));
                }
            }
        }
        i += 1;
    }
    None
}

/// What [`parse_pyproject`] gives for `content`: nothing for blank text;
/// otherwise the layout and the package name the lines declare.
pub open spec fn pyproject_result(content: Seq<char>, r: Option<PyProjectConfig>) -> bool {
    match r {
        Some(c) => {
            &&& trim_spec(content).len() > 0
            &&& c.src_layout == src_layout_scan(lines_spec(content), false)
            &&& match c.package_name {
                Some(n) => package_name_scan(lines_spec(content), false) == Some(n@),
                None => package_name_scan(lines_spec(content), false) is None,
            }
        },
        None => trim_spec(content).len() == 0,
    }
}

/// Parse a pyproject.toml file: `None` for input that is empty after
/// trimming, otherwise the src-layout flag and the `[project]` name.
pub fn parse_pyproject(content: &str) -> (r: Option<PyProjectConfig>)
    ensures
        pyproject_result(content@, r),
{
    let text = chars_of(content);
    if trim(&text).len() == 0 {
        return None;
    }
    let src_layout = detect_src_layout(content);
    let package_name = extract_package_name(content);
    Some(PyProjectConfig { src_layout, package_name })
}

} // verus!
