//! Maven `pom.xml` files.
use vstd::prelude::*;
use crate::diagnostic::{DiagnosticCollector, Warning, WarningCode};
use crate::model::{dir_parent, dir_parent_spec, CanonicalPath};
use crate::parser::config::csproj::{xml_all_nodes, xml_nodes_of, xml_parse, XmlNode};
use crate::parser::config::tsconfig::views_of_strings;
use crate::parser::traits::opt_view;
use crate::text::{chars_of, concat, eq, string_of, trim, trim_spec};

verus! {

/// Parsed Maven POM configuration.
#[derive(Clone, Debug)]
pub struct MavenConfig {
    pub config_path: String,
    pub config_dir: String,
    pub group_id: Option<String>,
    pub artifact_id: Option<String>,
    pub version: Option<String>,
    pub packaging: Option<String>,
    pub source_directory: Option<String>,
    pub test_source_directory: Option<String>,
    pub modules: Vec<String>,
    pub dependencies: Vec<MavenDep>,
    pub parent: Option<MavenParentRef>,
}

/// A `<dependency>` entry of a POM file.
#[derive(Clone, Debug)]
pub struct MavenDep {
    pub group_id: String,
    pub artifact_id: String,
    pub version: Option<String>,
    pub scope: Option<String>,
}

/// A `<parent>` reference of a POM file.
#[derive(Clone, Debug)]
pub struct MavenParentRef {
    pub group_id: String,
    pub artifact_id: String,
    pub version: Option<String>,
    pub relative_path: Option<String>,
}

/// An XML element as the POM logic reads it: whether it is an element, its
/// local name, its text, and its children (down to the depth read).
#[derive(Debug)]
pub struct XmlElem {
    pub element: bool,
    pub name: String,
    pub text: Option<String>,
    pub children: Vec<XmlElem>,
}

/// The first child element named `name`.
pub open spec fn first_named(cs: Seq<XmlElem>, name: Seq<char>) -> Option<XmlElem>
    decreases cs.len(),
{
    if cs.len() == 0 {
        None
    } else if cs[0].element && cs[0].name@ == name {
        Some(cs[0])
    } else {
        first_named(cs.drop_first(), name)
    }
}

/// An element's trimmed text, when not empty.
pub open spec fn elem_text(e: XmlElem) -> Option<Seq<char>> {
    match e.text {
        Some(t) => if trim_spec(t@).len() > 0 {
            Some(trim_spec(t@))
        } else {
            None
        },
        None => None,
    }
}

/// The text of the first child element named `name`, trimmed, when not empty.
pub open spec fn child_text_spec(n: XmlElem, name: Seq<char>) -> Option<Seq<char>> {
    match first_named(n.children@, name) {
        Some(c) => elem_text(c),
        None => None,
    }
}

/// The `<module>` entries among elements `cs`.
pub open spec fn module_names(cs: Seq<XmlElem>) -> Seq<Seq<char>>
    decreases cs.len(),
{
    if cs.len() == 0 {
        Seq::empty()
    } else {
        module_names(cs.drop_last()) + if cs.last().element && cs.last().name@ == "module"@ && elem_text(cs.last()) is Some {
            seq![elem_text(cs.last())->0]
        } else {
            Seq::empty()
        }
    }
}

/// A dependency as plain values: group, artifact, version, scope.
pub type DepView = (Seq<char>, Seq<char>, Option<Seq<char>>, Option<Seq<char>>);

/// The `<dependency>` entries among elements `cs` that name a group and an artifact.
pub open spec fn dep_views(cs: Seq<XmlElem>) -> Seq<DepView>
    decreases cs.len(),
{
    if cs.len() == 0 {
        Seq::empty()
    } else {
        let c = cs.last();
        dep_views(cs.drop_last()) + if c.element && c.name@ == "dependency"@ && child_text_spec(c, "groupId"@) is Some
            && child_text_spec(c, "artifactId"@) is Some {
            seq![(child_text_spec(c, "groupId"@)->0, child_text_spec(c, "artifactId"@)->0, child_text_spec(c, "version"@), child_text_spec(c, "scope"@))]
        } else {
            Seq::empty()
        }
    }
}

/// The children of the first child element named `name`, if there is one.
pub open spec fn section(root: XmlElem, name: Seq<char>) -> Seq<XmlElem> {
    match first_named(root.children@, name) {
        Some(s) => s.children@,
        None => Seq::empty(),
    }
}

/// A dependency as plain values.
pub open spec fn dep_view(d: MavenDep) -> DepView {
    (d.group_id@, d.artifact_id@, opt_view(d.version), opt_view(d.scope))
}

/// The parent reference the root names: group and artifact required.
pub open spec fn parent_matches(p: Option<MavenParentRef>, root: XmlElem) -> bool {
    match first_named(root.children@, "parent"@) {
        Some(pn) => if child_text_spec(pn, "groupId"@) is Some && child_text_spec(pn, "artifactId"@) is Some {
            p matches Some(r) && r.group_id@ == child_text_spec(pn, "groupId"@)->0 && r.artifact_id@ == child_text_spec(
                pn,
                "artifactId"@,
            )->0 && opt_view(r.version) == child_text_spec(pn, "version"@) && opt_view(r.relative_path)
                == child_text_spec(pn, "relativePath"@)
        } else {
            p is None
        },
        None => p is None,
    }
}

/// The directory of a POM path: its parent, or nothing.
pub open spec fn pom_dir(p: Seq<char>) -> Seq<char> {
    match dir_parent_spec(p) {
        Some(d) => d,
        None => Seq::empty(),
    }
}

/// What a POM's root element describes.
pub open spec fn pom_matches(c: MavenConfig, root: XmlElem, pom_path: Seq<char>) -> bool {
    &&& c.config_path@ == pom_path
    &&& c.config_dir@ == pom_dir(pom_path)
    &&& opt_view(c.group_id) == child_text_spec(root, "groupId"@)
    &&& opt_view(c.artifact_id) == child_text_spec(root, "artifactId"@)
    &&& opt_view(c.version) == child_text_spec(root, "version"@)
    &&& opt_view(c.packaging) == child_text_spec(root, "packaging"@)
    &&& parent_matches(c.parent, root)
    &&& views_of_strings(c.modules@) == module_names(section(root, "modules"@))
    &&& c.dependencies@.map_values(|d: MavenDep| dep_view(d)) == dep_views(section(root, "dependencies"@))
    &&& opt_view(c.source_directory) == match first_named(root.children@, "build"@) {
        Some(b) => child_text_spec(b, "sourceDirectory"@),
        None => None,
    }
    &&& opt_view(c.test_source_directory) == match first_named(root.children@, "build"@) {
        Some(b) => child_text_spec(b, "testSourceDirectory"@),
        None => None,
    }
}

/// `first_named`.
fn first_named_exec<'a>(cs: &'a Vec<XmlElem>, name: &str) -> (r: Option<&'a XmlElem>)
    ensures
        match r {
            Some(e) => first_named(cs@, name@) == Some(*e),
            None => first_named(cs@, name@) is None,
        },
{
    let want = chars_of(name);
    let mut i: usize = 0;
    assert(cs@.skip(0) =~= cs@);
    while i < cs.len()
        invariant
            i <= cs@.len(),
            want@ == name@,
            first_named(cs@, name@) == first_named(cs@.skip(i as int), name@),
        decreases cs.len() - i,
    {
        assert(cs@.skip(i as int)[0] == cs@[i as int]);
        if cs[i].element && eq(&chars_of(cs[i].name.as_str()), &want) {
            return Some(&cs[i]);
        }
        assert(cs@.skip(i as int).drop_first() =~= cs@.skip(i + 1));
        i += 1;
    }
    None
}

/// `elem_text`.
fn elem_text_exec(e: &XmlElem) -> (r: Option<String>)
    ensures
        opt_view(r) == elem_text(*e),
{
    match &e.text {
        Some(t) => {
            let v = trim(&chars_of(t.as_str()));
            if v.len() > 0 {
                Some(string_of(&v))
            } else {
                None
            }
        },
        None => None,
    }
}

/// `child_text_spec`.
fn child_text(n: &XmlElem, name: &str) -> (r: Option<String>)
    ensures
        opt_view(r) == child_text_spec(*n, name@),
{
    match first_named_exec(&n.children, name) {
        Some(c) => elem_text_exec(c),
        None => None,
    }
}

/// The POM its root element describes, read from `pom_path`.
pub fn pom_from_root(root: &XmlElem, pom_path: &str) -> (r: MavenConfig)
    ensures
        pom_matches(r, *root, pom_path@),
{
    let group_id = child_text(root, "groupId");
    let artifact_id = child_text(root, "artifactId");
    let version = child_text(root, "version");
    let packaging = child_text(root, "packaging");
    let parent = match first_named_exec(&root.children, "parent") {
        Some(pn) => match (child_text(pn, "groupId"), child_text(pn, "artifactId")) {
            (Some(g), Some(a)) => Some(
                MavenParentRef {
                    group_id: g,
                    artifact_id: a,
                    version: child_text(pn, "version"),
                    relative_path: child_text(pn, "relativePath"),
                },
            ),
            _ => None,
        },
        None => None,
    };
    let empty: Vec<XmlElem> = Vec::new();
    let mods = match first_named_exec(&root.children, "modules") {
        Some(m) => &m.children,
        None => &empty,
    };
    let mut modules: Vec<String> = Vec::new();
    let mut i: usize = 0;
    while i < mods.len()
        invariant
            i <= mods@.len(),
            views_of_strings(modules@) == module_names(mods@.take(i as int)),
        decreases mods.len() - i,
    {
        let ghost m0 = modules@;
        let c = &mods[i];
        assert(mods@.take(i + 1).drop_last() =~= mods@.take(i as int));
        if c.element && eq(&chars_of(c.name.as_str()), &chars_of("module")) {
            match elem_text_exec(c) {
                Some(t) => {
                    let ghost tv = t@;
                    modules.push(t);
                    assert(views_of_strings(modules@) =~= views_of_strings(m0).push(tv));
                },
                None => {},
            }
        }
        assert(views_of_strings(modules@) =~= module_names(mods@.take(i + 1)));
        i += 1;
    }
    assert(mods@.take(mods@.len() as int) =~= mods@);
    let deps = match first_named_exec(&root.children, "dependencies") {
        Some(d) => &d.children,
        None => &empty,
    };
    let mut dependencies: Vec<MavenDep> = Vec::new();
    let mut j: usize = 0;
    while j < deps.len()
        invariant
            j <= deps@.len(),
            dependencies@.map_values(|d: MavenDep| dep_view(d)) == dep_views(deps@.take(j as int)),
        decreases deps.len() - j,
    {
        let ghost d0 = dependencies@;
        let c = &deps[j];
        assert(deps@.take(j + 1).drop_last() =~= deps@.take(j as int));
        if c.element && eq(&chars_of(c.name.as_str()), &chars_of("dependency")) {
            match (child_text(c, "groupId"), child_text(c, "artifactId")) {
                (Some(g), Some(a)) => {
                    let d = MavenDep { group_id: g, artifact_id: a, version: child_text(c, "version"), scope: child_text(c, "scope") };
                    let ghost dv = dep_view(d);
                    dependencies.push(d);
                    assert(dependencies@.map_values(|d: MavenDep| dep_view(d)) =~= d0.map_values(|d: MavenDep| dep_view(d)).push(dv));
                },
                _ => {},
            }
        }
        assert(dependencies@.map_values(|d: MavenDep| dep_view(d)) =~= dep_views(deps@.take(j + 1)));
        j += 1;
    }
    assert(deps@.take(deps@.len() as int) =~= deps@);
    let (source_directory, test_source_directory) = match first_named_exec(&root.children, "build") {
        Some(b) => (child_text(b, "sourceDirectory"), child_text(b, "testSourceDirectory")),
        None => (None, None),
    };
    let pv = chars_of(pom_path);
    let config_dir = match dir_parent(&pv) {
        Some(d) => d,
        None => Vec::new(),
    };
    MavenConfig {
        config_path: string_of(&pv),
        config_dir: string_of(&config_dir),
        group_id,
        artifact_id,
        version,
        packaging,
        source_directory,
        test_source_directory,
        modules,
        dependencies,
        parent,
    }
}

/// Children are read at most `d` levels down.
pub open spec fn depth_bounded(e: XmlElem, d: nat) -> bool
    decreases d,
{
    if d == 0 {
        e.children@.len() == 0
    } else {
        forall|j: int| 0 <= j < e.children@.len() ==> depth_bounded(#[trigger] e.children@[j], (d - 1) as nat)
    }
}

/// The positions of the children of node `i` among the document-order
/// `rows`, from position `j` on: the rows one level below it, up to the
/// first row not below it.
pub open spec fn kids_from(rows: Seq<XmlNode>, i: int, j: int) -> Seq<int>
    decreases rows.len() - j,
{
    if j < 0 || j >= rows.len() || rows[j].depth <= rows[i].depth {
        Seq::empty()
    } else {
        (if rows[j].depth == rows[i].depth + 1 {
            seq![j]
        } else {
            Seq::empty()
        }) + kids_from(rows, i, j + 1)
    }
}

/// `e` is the node at position `i` of `rows`, its children read `d` levels
/// down.
pub open spec fn elem_of_rows(e: XmlElem, rows: Seq<XmlNode>, i: int, d: nat) -> bool
    decreases d,
{
    &&& 0 <= i < rows.len()
    &&& e.element == rows[i].element
    &&& e.name@ == rows[i].name@
    &&& opt_view(e.text) == opt_view(rows[i].text)
    &&& if d == 0 {
        e.children@.len() == 0
    } else {
        let ks = kids_from(rows, i, i + 1);
        &&& e.children@.len() == ks.len()
        &&& forall|k: int| 0 <= k < ks.len() ==> elem_of_rows(#[trigger] e.children@[k], rows, ks[k], (d - 1) as nat)
    }
}

/// Position of the root element: the first element one level below the
/// document root.
pub open spec fn root_elem_index(rows: Seq<XmlNode>) -> Option<int>
    decreases rows.len(),
{
    if rows.len() == 0 {
        None
    } else {
        match root_elem_index(rows.drop_last()) {
            Some(i) => Some(i),
            None => if rows.last().element && rows.last().depth == 1 {
                Some(rows.len() - 1)
            } else {
                None
            },
        }
    }
}

proof fn lemma_root_elem_prefix(rows: Seq<XmlNode>, n: int)
    requires
        0 <= n <= rows.len(),
        root_elem_index(rows.take(n)) is Some,
    ensures
        root_elem_index(rows) == root_elem_index(rows.take(n)),
    decreases rows.len() - n,
{
    if n < rows.len() {
        assert(rows.take(n + 1).drop_last() =~= rows.take(n));
        lemma_root_elem_prefix(rows, n + 1);
    } else {
        assert(rows.take(n) =~= rows);
    }
}

proof fn lemma_root_elem_range(rows: Seq<XmlNode>)
    ensures
        root_elem_index(rows) matches Some(i) ==> 0 <= i < rows.len(),
    decreases rows.len(),
{
    if rows.len() > 0 {
        lemma_root_elem_range(rows.drop_last());
    }
}

/// `root_elem_index`.
fn root_elem_exec(rows: &Vec<XmlNode>) -> (r: Option<usize>)
    ensures
        r matches Some(i) ==> root_elem_index(rows@) == Some(i as int),
        r is None ==> root_elem_index(rows@) is None,
{
    let mut i: usize = 0;
    while i < rows.len()
        invariant
            i <= rows@.len(),
            root_elem_index(rows@.take(i as int)) is None,
        decreases rows.len() - i,
    {
        proof {
            assert(rows@.take(i + 1).drop_last() =~= rows@.take(i as int));
            assert(rows@.take(i + 1).last() == rows@[i as int]);
        }
        if rows[i].element && rows[i].depth == 1 {
            proof {
                lemma_root_elem_prefix(rows@, i as int + 1);
            }
            return Some(i);
        }
        i += 1;
    }
    assert(rows@.take(i as int) =~= rows@);
    None
}

fn clone_opt_string(o: &Option<String>) -> (r: Option<String>)
    ensures
        opt_view(r) == opt_view(*o),
{
    match o {
        Some(s) => Some(string_of(&chars_of(s.as_str()))),
        None => None,
    }
}

/// The node at position `i` of `rows` as an [`XmlElem`], its children read
/// `depth` levels down.
fn elem_from_rows(rows: &Vec<XmlNode>, i: usize, depth: u32) -> (r: XmlElem)
    requires
        i < rows@.len(),
    ensures
        elem_of_rows(r, rows@, i as int, depth as nat),
        depth_bounded(r, depth as nat),
    decreases depth,
{
    let mut children: Vec<XmlElem> = Vec::new();
    let len: usize = rows.len();
    if depth > 0 && i < len {
        let ghost all = kids_from(rows@, i as int, i as int + 1);
        let ghost mut taken: Seq<int> = Seq::empty();
        let mut j: usize = i + 1;
        while j < rows.len() && rows[j].depth > rows[i].depth
            invariant
                depth > 0,
                i < j <= rows@.len(),
                taken + kids_from(rows@, i as int, j as int) == all,
                children@.len() == taken.len(),
                forall|k: int| 0 <= k < taken.len() ==> 0 <= #[trigger] taken[k] < rows@.len(),
                forall|k: int| 0 <= k < children@.len() ==> elem_of_rows(#[trigger] children@[k], rows@, taken[k], (depth - 1) as nat),
                forall|k: int| 0 <= k < children@.len() ==> depth_bounded(#[trigger] children@[k], (depth - 1) as nat),
            decreases rows.len() - j,
        {
            if rows[j].depth == rows[i].depth + 1 {
                let c = elem_from_rows(rows, j, depth - 1);
                let ghost t0 = taken;
                children.push(c);
                proof {
                    taken = taken.push(j as int);
                    assert(t0 + kids_from(rows@, i as int, j as int) == t0 + (seq![j as int] + kids_from(rows@, i as int, j + 1)));
                    assert(taken + kids_from(rows@, i as int, j + 1) =~= t0 + (seq![j as int] + kids_from(rows@, i as int, j + 1)));
                }
            } else {
                proof {
                    assert(kids_from(rows@, i as int, j as int) =~= kids_from(rows@, i as int, j + 1));
                }
            }
            j += 1;
        }
        proof {
            assert(kids_from(rows@, i as int, j as int) =~= Seq::<int>::empty());
            assert(taken =~= all);
        }
    }
    let n = &rows[i];
    XmlElem { element: n.element, name: string_of(&chars_of(n.name.as_str())), text: clone_opt_string(&n.text), children }
}

/// Parse a `pom.xml`: `None`, with `W039MavenParseError`, when the XML does
/// not parse; otherwise what its root element describes (see [`pom_from_root`]).
pub fn parse_pom_xml(content: &str, pom_path: &str, diag: &mut DiagnosticCollector) -> (r: Option<MavenConfig>)
    ensures
        match r {
            Some(c) => c.config_path@ == pom_path@ && c.config_dir@ == pom_dir(pom_path@) && final(diag).codes()
                == old(diag).codes(),
            None => final(diag).codes() == old(diag).codes().push(WarningCode::W039MavenParseError),
        },
        r is None <==> (xml_nodes_of(content@) is Err || (xml_nodes_of(content@) matches Ok(rows)
            && root_elem_index(rows) is None)),
        r matches Some(c) ==> (xml_nodes_of(content@) matches Ok(rows) && root_elem_index(rows) matches Some(i)
            && exists|e: XmlElem| #[trigger] elem_of_rows(e, rows, i, 3) && pom_matches(c, e, pom_path@)),
{
    let doc = match xml_parse(content) {
        Ok(d) => d,
        Err(e) => {
            let msg = concat(&chars_of("failed to parse pom.xml: "), &chars_of(e.as_str()));
            diag.warn(Warning {
                code: WarningCode::W039MavenParseError,
                path: CanonicalPath::new(pom_path),
                message: string_of(&msg),
                detail: None,
            });
            return None;
        },
    };
    let rows = xml_all_nodes(&doc);
    let ri = match root_elem_exec(&rows) {
        Some(ri) => ri,
        None => {
            diag.warn(Warning {
                code: WarningCode::W039MavenParseError,
                path: CanonicalPath::new(pom_path),
                message: string_of(&chars_of("failed to parse pom.xml: no root element")),
                detail: None,
            });
            return None;
        },
    };
    proof {
        lemma_root_elem_range(rows@);
    }
    let root = elem_from_rows(&rows, ri, 3);
    let c = pom_from_root(&root, pom_path);
    assert(elem_of_rows(root, rows@, ri as int, 3) && pom_matches(c, root, pom_path@));
    Some(c)
}

} // verus!
