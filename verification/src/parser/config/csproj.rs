//! .NET project (`.csproj`) and solution (`.sln`) files.
use vstd::prelude::*;

use crate::diagnostic::{DiagnosticCollector, Warning, WarningCode};
use crate::model::{dir_parent, dir_parent_spec, path_join, path_join_spec, CanonicalPath};
use crate::text::{
    before_char, before_first, chars_of, find, find_char, find_char_spec, find_spec, lines,
    lines_spec, replace_char, replace_char_spec, slice, split_char, split_spec, starts_with,
    string_of, trim, trim_spec, views, join, join_spec, eq, contains, contains_spec,
};

verus! {

/// Parsed .csproj configuration.
#[derive(Clone, Debug)]
pub struct CsprojConfig {
    /// Path to the .csproj file (project-relative).
    pub project_path: String,
    /// Directory containing the .csproj file.
    pub project_dir: String,
    /// `<TargetFramework>` or first `<TargetFrameworks>` entry.
    pub target_framework: Option<String>,
    /// `<RootNamespace>`.
    pub root_namespace: Option<String>,
    /// `<AssemblyName>`.
    pub assembly_name: Option<String>,
    /// `<ProjectReference Include="...">` entries, with forward slashes.
    pub project_references: Vec<ProjectRef>,
    /// `<PackageReference Include="...">` entries.
    pub package_references: Vec<PackageRef>,
}

/// A `<ProjectReference>` entry of a .csproj file.
#[derive(Clone, Debug)]
pub struct ProjectRef {
    /// Relative path to the referenced .csproj, with forward slashes.
    pub path: String,
    /// The referenced .csproj, relative to the project root.
    pub resolved_path: Option<String>,
}

/// A `<PackageReference>` entry of a .csproj file.
#[derive(Clone, Debug)]
pub struct PackageRef {
    /// NuGet package name.
    pub name: String,
    /// Version string (may be a range).
    pub version: Option<String>,
}

/// Parsed .sln solution structure.
#[derive(Clone, Debug)]
pub struct DotnetSolutionInfo {
    /// Path to the .sln file (project-relative).
    pub solution_path: String,
    /// Project entries of the solution.
    pub projects: Vec<SlnProjectEntry>,
}

/// A project entry of a .sln file.
#[derive(Clone, Debug)]
pub struct SlnProjectEntry {
    /// Display name.
    pub name: String,
    /// Relative path to the .csproj from the .sln directory, with forward slashes.
    pub relative_path: String,
    /// Project type GUID (tells C# projects from solution folders).
    pub type_guid: String,
}

// ---------------------------------------------------------------------------
// .sln
// ---------------------------------------------------------------------------

/// Type GUID of solution folders, which are not projects.
pub open spec fn solution_folder_guid() -> Seq<char> {
    "{2150E333-8FDC-42A3-9474-1A3956D46DE8}"@
}

/// ASCII lower case of one character.
pub open spec fn ascii_lower(c: char) -> char {
    if 'A' <= c <= 'Z' {
        ((c as u32) + 32) as char
    } else {
        c
    }
}

/// Equal up to ASCII case (`str::eq_ignore_ascii_case`).
pub open spec fn eq_ignore_ascii_case_spec(a: Seq<char>, b: Seq<char>) -> bool {
    a.len() == b.len() && forall|i: int| 0 <= i < a.len() ==> ascii_lower(#[trigger] a[i]) == ascii_lower(b[i])
}

/// The quoted fields of `s`: the text between each opening `"` and the next `"`.
pub open spec fn quoted_fields(s: Seq<char>) -> Seq<Seq<char>>
    decreases s.len(),
{
    match find_char_spec(s, '"') {
        Some(p) => {
            let r = s.skip(p + 1);
            match find_char_spec(r, '"') {
                Some(e) => {
                    if 0 <= p < s.len() && 0 <= e < r.len() {
                        seq![r.take(e)] + quoted_fields(r.skip(e + 1))
                    } else {
                        Seq::empty()
                    }
                },
                None => Seq::empty(),
            }
        },
        None => Seq::empty(),
    }
}

/// What one solution line says of a project, as plain values:
/// (name, relative path, type GUID).
pub open spec fn sln_line_spec(line: Seq<char>) -> Option<(Seq<char>, Seq<char>, Seq<char>)> {
    let after = line.skip("Project(\""@.len() as int);
    if !"Project(\""@.is_prefix_of(line) {
        None
    } else {
        match find_char_spec(after, '"') {
            Some(g) => {
                let rest = after.skip(g);
                match find_spec(rest, " = "@) {
                    Some(q) => {
                        let fields = quoted_fields(rest.skip(q + " = "@.len()));
                        if fields.len() < 2 {
                            None
                        } else {
                            Some((fields[0], replace_char_spec(fields[1], '\\', '/'), after.take(g)))
                        }
                    },
                    None => None,
                }
            },
            None => None,
        }
    }
}

/// The projects of the solution lines, in order.
pub open spec fn sln_projects(ls: Seq<Seq<char>>) -> Seq<(Seq<char>, Seq<char>, Seq<char>)>
    decreases ls.len(),
{
    if ls.len() == 0 {
        Seq::empty()
    } else {
        let t = trim_spec(ls.last());
        sln_projects(ls.drop_last()) + if "Project(\""@.is_prefix_of(t) {
            match sln_line_spec(t) {
                Some(e) => if eq_ignore_ascii_case_spec(e.2, solution_folder_guid()) {
                    Seq::empty()
                } else {
                    seq![e]
                },
                None => Seq::empty(),
            }
        } else {
            Seq::empty()
        }
    }
}

/// A solution entry as plain values.
pub open spec fn entry_view(e: SlnProjectEntry) -> (Seq<char>, Seq<char>, Seq<char>) {
    (e.name@, e.relative_path@, e.type_guid@)
}

/// `str::eq_ignore_ascii_case`.
pub fn eq_ignore_ascii_case(a: &Vec<char>, b: &Vec<char>) -> (r: bool)
    ensures
        r == eq_ignore_ascii_case_spec(a@, b@),
{
    if a.len() != b.len() {
        return false;
    }
    let mut i: usize = 0;
    while i < a.len()
        invariant
            a@.len() == b@.len(),
            0 <= i <= a@.len(),
            forall|k: int| 0 <= k < i ==> ascii_lower(#[trigger] a@[k]) == ascii_lower(b@[k]),
        decreases a.len() - i,
    {
        let x = a[i];
        let y = b[i];
        let lx = if 'A' <= x && x <= 'Z' { ((x as u32) + 32) as u8 as char } else { x };
        let ly = if 'A' <= y && y <= 'Z' { ((y as u32) + 32) as u8 as char } else { y };
        assert(lx == ascii_lower(x)) by {
            if 'A' <= x <= 'Z' {
                assert(((x as u32) + 32) as u8 as char == ((x as u32) + 32) as char);
            }
        }
        assert(ly == ascii_lower(y)) by {
            if 'A' <= y <= 'Z' {
                assert(((y as u32) + 32) as u8 as char == ((y as u32) + 32) as char);
            }
        }
        if lx != ly {
            return false;
        }
        i += 1;
    }
    true
}

/// The quoted fields of `s`.
pub fn extract_quoted_fields(s: &Vec<char>) -> (r: Vec<Vec<char>>)
    ensures
        views(r@) == quoted_fields(s@),
{
    let mut out: Vec<Vec<char>> = Vec::new();
    let mut rest = slice(s, 0, s.len());
    assert(s@.subrange(0, s@.len() as int) =~= s@);
    while rest.len() > 0
        invariant
            views(out@) + quoted_fields(rest@) == quoted_fields(s@),
        decreases rest.len(),
    {
        match find_char(&rest, '"') {
            Some(p) => {
                let r = slice(&rest, p + 1, rest.len());
                assert(r@ == rest@.skip(p + 1));
                match find_char(&r, '"') {
                    Some(e) => {
                        let field = slice(&r, 0, e);
                        let next = slice(&r, e + 1, r.len());
                        assert(field@ == r@.take(e as int));
                        assert(next@ == r@.skip(e + 1));
                        let ghost before = views(out@);
                        out.push(field);
                        assert(views(out@) =~= before.push(field@));
                        assert(views(out@) + quoted_fields(next@) =~= before + quoted_fields(rest@));
                        rest = next;
                    },
                    None => {
                        assert(views(out@) + quoted_fields(rest@) =~= views(out@));
                        return out;
                    },
                }
            },
            None => {
                assert(views(out@) + quoted_fields(rest@) =~= views(out@));
                return out;
            },
        }
    }
    assert(quoted_fields(rest@) =~= Seq::<Seq<char>>::empty());
    assert(views(out@) + quoted_fields(rest@) =~= views(out@));
    out
}

/// Parse one `Project("{TYPE}") = "NAME", "PATH", "GUID"` line; `None` for
/// a line of another shape.
pub fn parse_sln_project_line(line: &Vec<char>) -> (r: Option<SlnProjectEntry>)
    ensures
        match r {
            Some(e) => sln_line_spec(line@) == Some(entry_view(e)),
            None => sln_line_spec(line@) is None,
        },
{
    let head = chars_of("Project(\"");
    if !crate::text::starts_with(line, &head) {
        return None;
    }
    let after = slice(line, head.len(), line.len());
    assert(after@ == line@.skip("Project(\""@.len() as int));
    let g = match find_char(&after, '"') {
        Some(g) => g,
        None => return None,
    };
    let type_guid = slice(&after, 0, g);
    let rest = slice(&after, g, after.len());
    assert(type_guid@ == after@.take(g as int));
    assert(rest@ == after@.skip(g as int));
    let sep = chars_of(" = ");
    let q = match find(&rest, &sep) {
        Some(q) => q,
        None => return None,
    };
    proof {
        crate::text::lemma_find(rest@, " = "@);
    }
    let after_eq = slice(&rest, q + sep.len(), rest.len());
    assert(after_eq@ == rest@.skip(q + " = "@.len()));
    let fields = extract_quoted_fields(&after_eq);
    if fields.len() < 2 {
        return None;
    }
    let name = string_of(&fields[0]);
    let path = string_of(&replace_char(&fields[1], '\\', '/'));
    assert(views(fields@)[0] == fields@[0]@ && views(fields@)[1] == fields@[1]@);
    Some(SlnProjectEntry { name, relative_path: path, type_guid: string_of(&type_guid) })
}

/// The first line of a solution file names its format.
pub open spec fn sln_header() -> Seq<char> {
    "Microsoft Visual Studio Solution File"@
}

/// Some line, trimmed, begins with `Project(`.
pub open spec fn has_project_line(ls: Seq<Seq<char>>) -> bool {
    exists|j: int| 0 <= j < ls.len() && #[trigger] "Project("@.is_prefix_of(trim_spec(ls[j]))
}

/// Text that can be read as a solution: it names the solution format or
/// declares at least one project.
pub open spec fn sln_recognised(content: Seq<char>) -> bool {
    contains_spec(content, sln_header()) || has_project_line(lines_spec(content))
}

/// Parse a .sln file: one entry per `Project("...` line that parses,
/// solution folders left out. Text with neither the solution header nor
/// any `Project(` line is no solution: `None`, with a warning.
pub fn parse_sln(content: &str, sln_path: &str, diagnostics: &mut DiagnosticCollector) -> (r: Option<DotnetSolutionInfo>)
    ensures
        r is Some <==> sln_recognised(content@),
        r matches Some(info) ==> info.solution_path@ == sln_path@
            && info.projects@.map_values(|e: SlnProjectEntry| entry_view(e)) == sln_projects(lines_spec(content@))
            && final(diagnostics).codes() == old(diagnostics).codes(),
        r is None ==> final(diagnostics).codes() == old(diagnostics).codes().push(WarningCode::W035SlnParseError),
{
    let text = chars_of(content);
    let ls = lines(&text);
    let ghost all = views(ls@);
    let head = chars_of("Project(\"");
    let open = chars_of("Project(");
    let folder = chars_of("{2150E333-8FDC-42A3-9474-1A3956D46DE8}");
    let mut projects: Vec<SlnProjectEntry> = Vec::new();
    let mut seen_project = false;
    let mut i: usize = 0;
    while i < ls.len()
        invariant
            0 <= i <= ls@.len(),
            all == views(ls@),
            all == lines_spec(content@),
            head@ == "Project(\""@,
            open@ == "Project("@,
            folder@ == solution_folder_guid(),
            projects@.map_values(|e: SlnProjectEntry| entry_view(e)) == sln_projects(all.take(i as int)),
            seen_project == has_project_line(all.take(i as int)),
        decreases ls.len() - i,
    {
        proof {
            assert(all.take(i + 1).drop_last() =~= all.take(i as int));
            assert(all.take(i + 1).last() == ls@[i as int]@);
        }
        let ghost before = projects@.map_values(|e: SlnProjectEntry| entry_view(e));
        let t = trim(&ls[i]);
        let opens = starts_with(&t, &open);
        proof {
            let next = all.take(i + 1);
            if has_project_line(all.take(i as int)) {
                let j = choose|j: int| 0 <= j < all.take(i as int).len()
                    && #[trigger] "Project("@.is_prefix_of(trim_spec(all.take(i as int)[j]));
                assert(next[j] == all.take(i as int)[j]);
            }
            if opens {
                assert(next[i as int] == all[i as int]);
            }
            if has_project_line(next) {
                let j = choose|j: int| 0 <= j < next.len() && #[trigger] "Project("@.is_prefix_of(trim_spec(next[j]));
                if j < i {
                    assert(all.take(i as int)[j] == next[j]);
                }
            }
        }
        seen_project = seen_project || opens;
        if starts_with(&t, &head) {
            match parse_sln_project_line(&t) {
                Some(entry) => {
                    let guid = chars_of(entry.type_guid.as_str());
                    if !eq_ignore_ascii_case(&guid, &folder) {
                        let ghost ev = entry_view(entry);
                        projects.push(entry);
                        assert(projects@.map_values(|e: SlnProjectEntry| entry_view(e)) =~= before.push(ev));
                    }
                },
                None => {},
            }
        }
        assert(projects@.map_values(|e: SlnProjectEntry| entry_view(e)) =~= sln_projects(all.take(i + 1)));
        i += 1;
    }
    assert(all.take(all.len() as int) =~= all);
    let header = chars_of("Microsoft Visual Studio Solution File");
    if !seen_project && !contains(&text, &header) {
        diagnostics.warn(Warning {
            code: WarningCode::W035SlnParseError,
            path: CanonicalPath::new(sln_path),
            message: string_of(&chars_of("not a solution file: no header and no project entries")),
            detail: None,
        });
        return None;
    }
    Some(DotnetSolutionInfo { solution_path: string_of(&chars_of(sln_path)), projects })
}


// ---------------------------------------------------------------------------
// Trusted: roxmltree
// ---------------------------------------------------------------------------

#[verifier::external_type_specification]
#[verifier::external_body]
pub struct ExXmlDocument<'i>(roxmltree::Document<'i>);

/// What roxmltree makes of an XML text: the parse error's message, or every
/// node of the document in document order (`Document::descendants`).
pub uninterp spec fn xml_nodes_of(content: Seq<char>) -> Result<Seq<XmlNode>, Seq<char>>;

/// A parsed XML document, with the text it was parsed from.
pub struct XmlParsed<'i> {
    doc: roxmltree::Document<'i>,
    content: Ghost<Seq<char>>,
}

impl<'i> XmlParsed<'i> {
    /// The nodes of the document.
    pub closed spec fn nodes(&self) -> Result<Seq<XmlNode>, Seq<char>> {
        xml_nodes_of(self.content@)
    }
}

/// `roxmltree::Document::parse`; the error is given as its message.
#[verifier::external_body]
pub(crate) fn xml_parse<'i>(content: &'i str) -> (r: Result<XmlParsed<'i>, String>)
    ensures
        r is Ok <==> xml_nodes_of(content@) is Ok,
        r matches Ok(d) ==> d.nodes() == xml_nodes_of(content@),
        r matches Err(e) ==> (xml_nodes_of(content@) matches Err(m) && m == e@),
{
    match roxmltree::Document::parse(content) {
        Ok(doc) => Ok(XmlParsed { doc, content: Ghost(content@) }),
        Err(e) => Err(e.to_string()),
    }
}

/// The number of nodes `Document::descendants` walks.
#[verifier::external_body]
pub(crate) fn xml_node_count(d: &XmlParsed) -> (r: usize)
    requires
        d.nodes() is Ok,
    ensures
        r == d.nodes()->Ok_0.len(),
{
    d.doc.descendants().count()
}

/// The node at position `i` of `Document::descendants`: the number of its
/// ancestors (`Node::ancestors` past the node itself), `is_element`, the
/// local name of `tag_name`, `text`, and each of `attributes` with its
/// namespace, local name and value.
#[verifier::external_body]
pub(crate) fn xml_node_at(d: &XmlParsed, i: usize) -> (r: XmlNode)
    requires
        d.nodes() matches Ok(ns) && i < ns.len(),
    ensures
        r == d.nodes()->Ok_0[i as int],
{
    let n = d.doc.descendants().nth(i).unwrap();
    let attributes = n.attributes().map(|a| XmlAttr {
        namespace: a.namespace().map(|x| x.to_string()), name: a.name().to_string(), value: a.value().to_string(),
    }).collect();
    XmlNode {
        depth: n.ancestors().skip(1).count(), element: n.is_element(), name: n.tag_name().name().to_string(),
        text: n.text().map(|t| t.to_string()), attributes,
    }
}

// ---------------------------------------------------------------------------
// .csproj
// ---------------------------------------------------------------------------

/// One attribute of an XML element.
#[derive(Clone, Debug)]
pub struct XmlAttr {
    pub namespace: Option<String>,
    pub name: String,
    pub value: String,
}

/// One XML node, as the project logic reads it.
#[derive(Clone, Debug)]
pub struct XmlNode {
    /// How many nodes lie above it (the document root is at depth 0).
    pub depth: usize,
    pub element: bool,
    pub name: String,
    pub text: Option<String>,
    pub attributes: Vec<XmlAttr>,
}

/// The value of the first attribute named `name` in no namespace
/// (`roxmltree::Node::attribute` with a plain name).
pub open spec fn attr_of(attrs: Seq<XmlAttr>, name: Seq<char>) -> Option<Seq<char>>
    decreases attrs.len(),
{
    if attrs.len() == 0 {
        None
    } else {
        match attr_of(attrs.drop_last(), name) {
            Some(v) => Some(v),
            None => if attrs.last().namespace is None && attrs.last().name@ == name {
                Some(attrs.last().value@)
            } else {
                None
            },
        }
    }
}

/// `attr_of`.
fn attr_exec(attrs: &Vec<XmlAttr>, name: &str) -> (r: Option<String>)
    ensures
        opt_chars(r) == attr_of(attrs@, name@),
{
    let want = chars_of(name);
    let mut i: usize = 0;
    while i < attrs.len()
        invariant
            i <= attrs@.len(),
            want@ == name@,
            attr_of(attrs@.take(i as int), name@) is None,
        decreases attrs.len() - i,
    {
        proof {
            assert(attrs@.take(i + 1).drop_last() =~= attrs@.take(i as int));
            assert(attrs@.take(i + 1).last() == attrs@[i as int]);
        }
        let a = &attrs[i];
        if a.namespace.is_none() && eq(&chars_of(a.name.as_str()), &want) {
            proof {
                lemma_attr_of_prefix(attrs@, name@, i as int + 1);
            }
            return Some(a.value.clone());
        }
        i += 1;
    }
    assert(attrs@.take(i as int) =~= attrs@);
    None
}

proof fn lemma_attr_of_prefix(attrs: Seq<XmlAttr>, name: Seq<char>, n: int)
    requires
        0 <= n <= attrs.len(),
        attr_of(attrs.take(n), name) is Some,
    ensures
        attr_of(attrs, name) == attr_of(attrs.take(n), name),
    decreases attrs.len() - n,
{
    if n < attrs.len() {
        assert(attrs.take(n + 1).drop_last() =~= attrs.take(n));
        lemma_attr_of_prefix(attrs, name, n + 1);
    } else {
        assert(attrs.take(n) =~= attrs);
    }
}

/// The setting a property element gives, if it gives one: its trimmed text,
/// or for a list element (`TargetFrameworks`) its first `;`-separated entry.
pub open spec fn setting_of(n: XmlNode, name: Seq<char>, list: bool) -> Option<Seq<char>> {
    if n.element && n.name@ == name {
        match n.text {
            Some(t) => {
                let v = if list {
                    trim_spec(before_char(t@, ';'))
                } else {
                    trim_spec(t@)
                };
                if v.len() > 0 {
                    Some(v)
                } else {
                    None
                }
            },
            None => None,
        }
    } else {
        None
    }
}

/// The first setting among nodes `ns` that gives one, for `name`, and for
/// `list_name` read as a list.
pub open spec fn first_setting(ns: Seq<XmlNode>, name: Seq<char>, list_name: Option<Seq<char>>) -> Option<Seq<char>>
    decreases ns.len(),
{
    if ns.len() == 0 {
        None
    } else {
        match first_setting(ns.drop_last(), name, list_name) {
            Some(v) => Some(v),
            None => match setting_of(ns.last(), name, false) {
                Some(v) => Some(v),
                None => match list_name {
                    Some(l) => setting_of(ns.last(), l, true),
                    None => None,
                },
            },
        }
    }
}

/// `..` removes the segment before it (nothing when there is none), `.`,
/// empty and root segments vanish.
pub open spec fn rel_segments(segs: Seq<Seq<char>>) -> Seq<Seq<char>>
    decreases segs.len(),
{
    if segs.len() == 0 {
        Seq::empty()
    } else {
        let r = rel_segments(segs.drop_last());
        let s = segs.last();
        if s.len() == 0 || s == "."@ {
            r
        } else if s == ".."@ {
            if r.len() > 0 {
                r.drop_last()
            } else {
                r
            }
        } else {
            r.push(s)
        }
    }
}

/// Lexical normalization of a relative path, as the components of `Path`
/// give it.
pub open spec fn normalize_relative_spec(p: Seq<char>) -> Seq<char> {
    join_spec(rel_segments(split_spec(p, '/')), '/')
}

/// A project reference as plain values: path and resolved path.
pub open spec fn project_ref_of(n: XmlNode, dir: Seq<char>) -> Seq<(Seq<char>, Seq<char>)> {
    if n.element && n.name@ == "ProjectReference"@ {
        match attr_of(n.attributes@, "Include"@) {
            Some(inc) => {
                let path = replace_char_spec(inc, '\\', '/');
                seq![(path, normalize_relative_spec(path_join_spec(dir, path)))]
            },
            None => Seq::empty(),
        }
    } else {
        Seq::empty()
    }
}

/// The project references among nodes `ns`.
pub open spec fn project_refs(ns: Seq<XmlNode>, dir: Seq<char>) -> Seq<(Seq<char>, Seq<char>)>
    decreases ns.len(),
{
    if ns.len() == 0 {
        Seq::empty()
    } else {
        project_refs(ns.drop_last(), dir) + project_ref_of(ns.last(), dir)
    }
}

/// A package reference as plain values: name and version.
pub open spec fn package_ref_of(n: XmlNode) -> Seq<(Seq<char>, Option<Seq<char>>)> {
    if n.element && n.name@ == "PackageReference"@ {
        match attr_of(n.attributes@, "Include"@) {
            Some(inc) => {
                let name = trim_spec(inc);
                if name.len() > 0 {
                    seq![
                        (name, match attr_of(n.attributes@, "Version"@) {
                            Some(v) => Some(trim_spec(v)),
                            None => None,
                        }),
                    ]
                } else {
                    Seq::empty()
                }
            },
            None => Seq::empty(),
        }
    } else {
        Seq::empty()
    }
}

/// The package references among nodes `ns`.
pub open spec fn package_refs(ns: Seq<XmlNode>) -> Seq<(Seq<char>, Option<Seq<char>>)>
    decreases ns.len(),
{
    if ns.len() == 0 {
        Seq::empty()
    } else {
        package_refs(ns.drop_last()) + package_ref_of(ns.last())
    }
}

/// The directory of the project file.
pub open spec fn project_dir_spec(path: Seq<char>) -> Seq<char> {
    match dir_parent_spec(path) {
        Some(d) => d,
        None => Seq::empty(),
    }
}

/// The characters of an optional string.
pub open spec fn opt_chars(o: Option<String>) -> Option<Seq<char>> {
    match o {
        Some(s) => Some(s@),
        None => None,
    }
}

/// A `.csproj` read from its XML nodes, as `csproj_from_xml` builds it.
pub open spec fn csproj_matches(c: CsprojConfig, ns: Seq<XmlNode>, path: Seq<char>) -> bool {
    let dir = project_dir_spec(path);
    &&& c.project_path@ == path
    &&& c.project_dir@ == dir
    &&& opt_chars(c.target_framework) == first_setting(ns, "TargetFramework"@, Some("TargetFrameworks"@))
    &&& opt_chars(c.root_namespace) == first_setting(ns, "RootNamespace"@, None)
    &&& opt_chars(c.assembly_name) == first_setting(ns, "AssemblyName"@, None)
    &&& c.project_references@.map_values(|r: ProjectRef| (r.path@, opt_chars(r.resolved_path)->0))
        == project_refs(ns, dir)
    &&& forall|i: int| 0 <= i < c.project_references@.len() ==> (#[trigger] c.project_references@[i]).resolved_path is Some
    &&& c.package_references@.map_values(|r: PackageRef| (r.name@, opt_chars(r.version))) == package_refs(ns)
}

/// `normalize_relative_spec`.
fn normalize_relative_path(p: &Vec<char>) -> (r: Vec<char>)
    ensures
        r@ == normalize_relative_spec(p@),
{
    let segs = split_char(p, '/');
    let ghost ss = views(segs@);
    let mut out: Vec<Vec<char>> = Vec::new();
    let mut i: usize = 0;
    while i < segs.len()
        invariant
            0 <= i <= segs@.len(),
            ss == views(segs@),
            ss == split_spec(p@, '/'),
            views(out@) == rel_segments(ss.take(i as int)),
        decreases segs.len() - i,
    {
        proof {
            assert(ss.take(i + 1).drop_last() =~= ss.take(i as int));
            assert(ss.take(i + 1).last() == segs@[i as int]@);
        }
        let s = &segs[i];
        let ghost before = views(out@);
        let dot = chars_of(".");
        let dotdot = chars_of("..");
        if s.len() == 0 || eq(s, &dot) {
        } else if eq(s, &dotdot) {
            if out.len() > 0 {
                out.pop();
                assert(views(out@) =~= before.drop_last());
            }
        } else {
            out.push(slice(s, 0, s.len()));
            assert(s@.subrange(0, s@.len() as int) =~= s@);
            assert(views(out@) =~= before.push(s@));
        }
        i += 1;
    }
    assert(ss.take(ss.len() as int) =~= ss);
    join(&out, '/')
}

/// The setting node `n` gives for `name` (as a list when `list`).
fn setting_exec(n: &XmlNode, name: &str, list: bool) -> (r: Option<String>)
    ensures
        opt_chars(r) == setting_of(*n, name@, list),
{
    if !n.element || !eq(&chars_of(n.name.as_str()), &chars_of(name)) {
        return None;
    }
    match &n.text {
        Some(t) => {
            let tc = chars_of(t.as_str());
            let v = if list {
                trim(&before_first(&tc, ';'))
            } else {
                trim(&tc)
            };
            if v.len() > 0 {
                Some(string_of(&v))
            } else {
                None
            }
        },
        None => None,
    }
}

/// Read a project from its XML nodes (in document order).
pub fn csproj_from_xml(nodes: &Vec<XmlNode>, csproj_path: &str) -> (r: CsprojConfig)
    ensures
        csproj_matches(r, nodes@, csproj_path@),
{
    let path = chars_of(csproj_path);
    let dir = match dir_parent(&path) {
        Some(d) => d,
        None => Vec::new(),
    };
    let ghost ns = nodes@;
    let mut target_framework: Option<String> = None;
    let mut root_namespace: Option<String> = None;
    let mut assembly_name: Option<String> = None;
    let mut project_references: Vec<ProjectRef> = Vec::new();
    let mut package_references: Vec<PackageRef> = Vec::new();
    let mut i: usize = 0;
    while i < nodes.len()
        invariant
            0 <= i <= nodes@.len(),
            ns == nodes@,
            dir@ == project_dir_spec(csproj_path@),
            opt_chars(target_framework) == first_setting(ns.take(i as int), "TargetFramework"@, Some("TargetFrameworks"@)),
            opt_chars(root_namespace) == first_setting(ns.take(i as int), "RootNamespace"@, None),
            opt_chars(assembly_name) == first_setting(ns.take(i as int), "AssemblyName"@, None),
            project_references@.map_values(|r: ProjectRef| (r.path@, opt_chars(r.resolved_path)->0))
                == project_refs(ns.take(i as int), dir@),
            forall|k: int| 0 <= k < project_references@.len() ==> (#[trigger] project_references@[k]).resolved_path is Some,
            package_references@.map_values(|r: PackageRef| (r.name@, opt_chars(r.version))) == package_refs(ns.take(i as int)),
        decreases nodes.len() - i,
    {
        let n = &nodes[i];
        proof {
            assert(ns.take(i + 1).drop_last() =~= ns.take(i as int));
            assert(ns.take(i + 1).last() == *n);
        }
        if target_framework.is_none() {
            target_framework = setting_exec(n, "TargetFramework", false);
            if target_framework.is_none() {
                target_framework = setting_exec(n, "TargetFrameworks", true);
            }
        }
        if root_namespace.is_none() {
            root_namespace = setting_exec(n, "RootNamespace", false);
        }
        if assembly_name.is_none() {
            assembly_name = setting_exec(n, "AssemblyName", false);
        }
        let ghost pr0 = project_references@.map_values(|r: ProjectRef| (r.path@, opt_chars(r.resolved_path)->0));
        let ghost pk0 = package_references@.map_values(|r: PackageRef| (r.name@, opt_chars(r.version)));
        if n.element && eq(&chars_of(n.name.as_str()), &chars_of("ProjectReference")) {
            match attr_exec(&n.attributes, "Include") {
                Some(inc) => {
                    let p = replace_char(&chars_of(inc.as_str()), '\\', '/');
                    let resolved = normalize_relative_path(&path_join(&dir, &p));
                    let pr = ProjectRef { path: string_of(&p), resolved_path: Some(string_of(&resolved)) };
                    project_references.push(pr);
                    assert(project_references@.map_values(|r: ProjectRef| (r.path@, opt_chars(r.resolved_path)->0))
                        =~= pr0.push((p@, resolved@)));
                },
                None => {},
            }
        }
        if n.element && eq(&chars_of(n.name.as_str()), &chars_of("PackageReference")) {
            match attr_exec(&n.attributes, "Include") {
                Some(inc) => {
                    let name = trim(&chars_of(inc.as_str()));
                    let version = match attr_exec(&n.attributes, "Version") {
                        Some(v) => Some(string_of(&trim(&chars_of(v.as_str())))),
                        None => None,
                    };
                    if name.len() > 0 {
                        let ghost vv = opt_chars(version);
                        package_references.push(PackageRef { name: string_of(&name), version });
                        assert(package_references@.map_values(|r: PackageRef| (r.name@, opt_chars(r.version)))
                            =~= pk0.push((name@, vv)));
                    }
                },
                None => {},
            }
        }
        proof {
            assert(project_references@.map_values(|r: ProjectRef| (r.path@, opt_chars(r.resolved_path)->0))
                =~= project_refs(ns.take(i + 1), dir@));
            assert(package_references@.map_values(|r: PackageRef| (r.name@, opt_chars(r.version)))
                =~= package_refs(ns.take(i + 1)));
        }
        i += 1;
    }
    assert(ns.take(ns.len() as int) =~= ns);
    CsprojConfig {
        project_path: string_of(&path),
        project_dir: string_of(&dir),
        target_framework,
        root_namespace,
        assembly_name,
        project_references,
        package_references,
    }
}

/// Every node of a parsed document, in document order.
pub(crate) fn xml_all_nodes(doc: &XmlParsed) -> (r: Vec<XmlNode>)
    requires
        doc.nodes() is Ok,
    ensures
        doc.nodes() matches Ok(ns) && ns == r@,
{
    let count = xml_node_count(doc);
    let ghost all = doc.nodes()->Ok_0;
    let mut nodes: Vec<XmlNode> = Vec::new();
    let mut i: usize = 0;
    while i < count
        invariant
            i <= count,
            doc.nodes() == Ok::<Seq<XmlNode>, Seq<char>>(all),
            count == all.len(),
            nodes@ == all.take(i as int),
        decreases count - i,
    {
        nodes.push(xml_node_at(doc, i));
        i += 1;
        assert(nodes@ =~= all.take(i as int));
    }
    assert(all.take(count as int) =~= all);
    nodes
}

/// Parse a `.csproj` file: `None`, with a warning, when the XML does not
/// parse; otherwise the project its nodes describe (see [`csproj_matches`]).
pub fn parse_csproj(content: &str, csproj_path: &str, diagnostics: &mut DiagnosticCollector) -> (r: Option<CsprojConfig>)
    ensures
        r is None <==> xml_nodes_of(content@) is Err,
        r matches Some(c) ==> (xml_nodes_of(content@) matches Ok(ns) && csproj_matches(c, ns, csproj_path@)),
        r is Some ==> final(diagnostics).codes() == old(diagnostics).codes(),
        r is None ==> final(diagnostics).codes() == old(diagnostics).codes().push(WarningCode::W034CsprojParseError),
{
    let doc = match xml_parse(content) {
        Ok(d) => d,
        Err(e) => {
            let mut msg = chars_of("failed to parse .csproj: ");
            crate::text::push_all(&mut msg, &chars_of(e.as_str()));
            diagnostics.warn(Warning {
                code: WarningCode::W034CsprojParseError,
                path: CanonicalPath::new(csproj_path),
                message: string_of(&msg),
                detail: None,
            });
            return None;
        },
    };
    let nodes = xml_all_nodes(&doc);
    Some(csproj_from_xml(&nodes, csproj_path))
}
} // verus!
