//! Next.js filesystem routing discovery.
//!
//! Detects App Router and Pages Router conventions by scanning known files
//! for Next.js route patterns (page, layout, loading, error, template,
//! not-found, route, middleware).
use vstd::prelude::*;

use crate::diagnostic::DiagnosticCollector;
use crate::model::{canon_spec, path_views, CanonicalPath, FileSet};
use crate::text::{
    after_last, after_last_char, before_char, before_first, chars_of, compare_text, concat, eq,
    find, find_spec, occurs_at, member, lemma_rfind_char, rfind_char, rfind_char_spec, seq_lt, slice, split_char, split_spec,
    starts_with, starts_with_char, string_of, strip_prefix, strip_suffix, views, words_of,
    TextOrder,
};

verus! {

/// Next.js route information discovered from filesystem conventions.
#[derive(Clone, Debug)]
pub struct NextRouteInfo {
    pub routes: Vec<NextRoute>,
    pub router_type: NextRouterType,
}

/// A single discovered route.
#[derive(Clone, Debug)]
pub struct NextRoute {
    pub path: String,
    pub file: CanonicalPath,
    pub kind: NextRouteKind,
}

/// Which Next.js router is in use.
#[derive(Clone, Copy, Debug, PartialEq, Eq, Structural)]
pub enum NextRouterType {
    AppRouter,
    PagesRouter,
    Both,
}

/// Classification of a Next.js route file.
#[derive(Clone, Copy, Debug, PartialEq, Eq, Structural)]
pub enum NextRouteKind {
    Page,
    Layout,
    Loading,
    Error,
    Template,
    NotFound,
    ApiRoute,
    Middleware,
}

/// A route as plain values: its path, its file and its kind.
pub type RouteView = (Seq<char>, Seq<char>, NextRouteKind);

/// The plain values of a route.
pub open spec fn route_view(r: NextRoute) -> RouteView {
    (r.path@, r.file@, r.kind)
}

/// The plain values of a list of routes.
pub open spec fn route_views(rs: Seq<NextRoute>) -> Seq<RouteView> {
    rs.map_values(|r: NextRoute| route_view(r))
}

/// Route-eligible file extensions.
pub open spec fn route_exts() -> Seq<Seq<char>> {
    seq!["ts"@, "tsx"@, "js"@, "jsx"@]
}

/// Secondary extensions that disqualify a file from being a route.
pub open spec fn non_route_exts() -> Seq<Seq<char>> {
    seq![
        "styles"@,
        "style"@,
        "css"@,
        "module"@,
        "test"@,
        "spec"@,
        "mock"@,
        "fixture"@,
        "snap"@,
        "stories"@,
        "story"@,
        "d"@,
    ]
}

/// The rest of a path after `app/` at its start or after its first `/app/`.
pub open spec fn strip_app_prefix_spec(p: Seq<char>) -> Option<Seq<char>> {
    if "app/"@.is_prefix_of(p) {
        Some(p.skip("app/"@.len() as int))
    } else {
        match find_spec(p, "/app/"@) {
            Some(i) => Some(p.skip(i + "/app/"@.len())),
            None => None,
        }
    }
}

/// The rest of a path after `pages/` at its start or after its first `/pages/`.
pub open spec fn strip_pages_prefix_spec(p: Seq<char>) -> Option<Seq<char>> {
    if "pages/"@.is_prefix_of(p) {
        Some(p.skip("pages/"@.len() as int))
    } else {
        match find_spec(p, "/pages/"@) {
            Some(i) => Some(p.skip(i + "/pages/"@.len())),
            None => None,
        }
    }
}

/// A file name with a middle dot-separated part such as `styles` or `test`.
pub open spec fn has_non_route_secondary_ext_spec(name: Seq<char>) -> bool {
    let parts = split_spec(name, '.');
    parts.len() >= 3 && exists|k: int| 1 <= k < parts.len() - 1 && non_route_exts().contains(parts[k])
}

/// The route kind an App Router file stem names.
pub open spec fn app_kind(stem: Seq<char>) -> Option<NextRouteKind> {
    if stem == "page"@ {
        Some(NextRouteKind::Page)
    } else if stem == "layout"@ {
        Some(NextRouteKind::Layout)
    } else if stem == "loading"@ {
        Some(NextRouteKind::Loading)
    } else if stem == "error"@ {
        Some(NextRouteKind::Error)
    } else if stem == "template"@ {
        Some(NextRouteKind::Template)
    } else if stem == "not-found"@ {
        Some(NextRouteKind::NotFound)
    } else if stem == "route"@ {
        Some(NextRouteKind::ApiRoute)
    } else {
        None
    }
}

/// `/` for the root directory, otherwise `/` followed by the directory.
pub open spec fn route_path_spec(dir: Seq<char>) -> Seq<char> {
    if dir.len() == 0 {
        "/"@
    } else {
        "/"@ + dir
    }
}

/// Classify the part of an App Router path after `app/`.
pub open spec fn classify_app_spec(rest: Seq<char>) -> Option<(NextRouteKind, Seq<char>)> {
    let dir = match rfind_char_spec(rest, '/') {
        Some(i) => rest.take(i),
        None => seq![],
    };
    let name = after_last_char(rest, '/');
    if has_non_route_secondary_ext_spec(name) {
        None
    } else if !route_exts().contains(after_last_char(name, '.')) {
        None
    } else {
        match app_kind(before_char(name, '.')) {
            Some(k) => Some(
                (
                    k,
                    if k == NextRouteKind::ApiRoute {
                        "API:"@ + route_path_spec(dir)
                    } else {
                        route_path_spec(dir)
                    },
                ),
            ),
            None => None,
        }
    }
}

/// Classify the part of a Pages Router path after `pages/`.
pub open spec fn classify_pages_spec(rest: Seq<char>) -> Option<(NextRouteKind, Seq<char>)> {
    let name = after_last_char(rest, '/');
    let ext = after_last_char(rest, '.');
    let stem_full = rest.take(rest.len() - ext.len() - 1);
    let file_stem = after_last_char(stem_full, '/');
    if has_non_route_secondary_ext_spec(name) {
        None
    } else if !route_exts().contains(ext) {
        None
    } else if file_stem.len() > 0 && file_stem[0] == '_' {
        None
    } else if "api/"@.is_prefix_of(rest) {
        Some((NextRouteKind::ApiRoute, "API:/"@ + stem_full))
    } else if stem_full == "index"@ {
        Some((NextRouteKind::Page, "/"@))
    } else if "/index"@.is_suffix_of(stem_full) {
        Some((NextRouteKind::Page, "/"@ + stem_full.take(stem_full.len() - "/index"@.len())))
    } else {
        Some((NextRouteKind::Page, "/"@ + stem_full))
    }
}

/// The App Router route of a file, if it is one.
pub open spec fn app_route_of(f: Seq<char>) -> Seq<RouteView> {
    match strip_app_prefix_spec(f) {
        Some(rest) => match classify_app_spec(rest) {
            Some((k, p)) => seq![(p, f, k)],
            None => seq![],
        },
        None => seq![],
    }
}

/// The Pages Router route of a file, if it is one.
pub open spec fn pages_route_of(f: Seq<char>) -> Seq<RouteView> {
    match strip_pages_prefix_spec(f) {
        Some(rest) => match classify_pages_spec(rest) {
            Some((k, p)) => seq![(p, f, k)],
            None => seq![],
        },
        None => seq![],
    }
}

/// The routes of the files in order, each file's App Router route first.
pub open spec fn scan_routes(files: Seq<Seq<char>>) -> Seq<RouteView>
    decreases files.len(),
{
    if files.len() == 0 {
        seq![]
    } else {
        app_route_of(files[0]) + pages_route_of(files[0]) + scan_routes(files.drop_first())
    }
}

/// Some file is an App Router route.
pub open spec fn has_app_route(files: Seq<Seq<char>>) -> bool {
    exists|i: int| 0 <= i < files.len() && app_route_of(files[i]).len() > 0
}

/// Some file is a Pages Router route.
pub open spec fn has_pages_route(files: Seq<Seq<char>>) -> bool {
    exists|i: int| 0 <= i < files.len() && pages_route_of(files[i]).len() > 0
}

/// The middleware file found: `middleware.<ext>` for the first route
/// extension that the set holds.
pub open spec fn middleware_spec(files: Seq<Seq<char>>) -> Option<Seq<char>> {
    if files.contains(canon_spec("middleware."@ + route_exts()[0])) {
        Some(canon_spec("middleware."@ + route_exts()[0]))
    } else if files.contains(canon_spec("middleware."@ + route_exts()[1])) {
        Some(canon_spec("middleware."@ + route_exts()[1]))
    } else if files.contains(canon_spec("middleware."@ + route_exts()[2])) {
        Some(canon_spec("middleware."@ + route_exts()[2]))
    } else if files.contains(canon_spec("middleware."@ + route_exts()[3])) {
        Some(canon_spec("middleware."@ + route_exts()[3]))
    } else {
        None
    }
}

/// Insert `m` before the first route whose file does not sort before it,
/// which is where a stable sort by file puts a route listed first.
pub open spec fn insert_by_file(rs: Seq<RouteView>, m: RouteView) -> Seq<RouteView>
    decreases rs.len(),
{
    if rs.len() == 0 {
        seq![m]
    } else if seq_lt(rs[0].1, m.1) {
        seq![rs[0]] + insert_by_file(rs.drop_first(), m)
    } else {
        seq![m] + rs
    }
}

/// All routes: the middleware route (if any) put in file order among the
/// App and Pages Router routes.
pub open spec fn all_routes_spec(files: Seq<Seq<char>>) -> Seq<RouteView> {
    match middleware_spec(files) {
        Some(m) => insert_by_file(scan_routes(files), ("/"@, m, NextRouteKind::Middleware)),
        None => scan_routes(files),
    }
}

/// The router type for the routers seen (a middleware-only project counts
/// as App Router).
pub open spec fn router_type_spec(files: Seq<Seq<char>>) -> NextRouterType {
    if has_app_route(files) && has_pages_route(files) {
        NextRouterType::Both
    } else if has_pages_route(files) && !has_app_route(files) {
        NextRouterType::PagesRouter
    } else {
        NextRouterType::AppRouter
    }
}

/// A pages-relative path whose extension check would index before its start.
pub open spec fn pages_rest_is_bare_ext(f: Seq<char>) -> bool {
    strip_pages_prefix_spec(f) matches Some(rest) && route_exts().contains(rest)
}

/// Whether `f` is a file right under a `pages` directory whose whole name
/// is a route extension (`pages/ts`): such a path cannot be read as a route.
pub fn is_bare_ext_page(f: &str) -> (r: bool)
    ensures
        r == pages_rest_is_bare_ext(f@),
{
    match strip_pages_prefix(&chars_of(f)) {
        Some(rest) => crate::text::member(&route_extensions(), &rest),
        None => false,
    }
}

fn route_extensions() -> (r: Vec<Vec<char>>)
    ensures
        views(r@) == route_exts(),
{
    let r = words_of(&["ts", "tsx", "js", "jsx"]);
    assert(views(r@) =~= route_exts());
    r
}

fn non_route_extensions() -> (r: Vec<Vec<char>>)
    ensures
        views(r@) == non_route_exts(),
{
    let r = words_of(
        &[
            "styles",
            "style",
            "css",
            "module",
            "test",
            "spec",
            "mock",
            "fixture",
            "snap",
            "stories",
            "story",
            "d",
        ],
    );
    assert(views(r@) =~= non_route_exts());
    r
}

/// The middleware file of the project, if any.
fn find_middleware(known_files: &FileSet) -> (r: Option<CanonicalPath>)
    ensures
        match r {
            Some(m) => middleware_spec(known_files@) == Some(m@),
            None => middleware_spec(known_files@) is None,
        },
{
    let exts = route_extensions();
    let ghost fs = known_files@;
    let mut k: usize = 0;
    while k < exts.len()
        invariant
            fs == known_files@,
            views(exts@) == route_exts(),
            k <= exts.len(),
            forall|j: int|
                0 <= j < k ==> !fs.contains(canon_spec("middleware."@ + route_exts()[j])),
        decreases exts.len() - k,
    {
        let name = concat(&chars_of("middleware."), &exts[k]);
        let cp = CanonicalPath::from_chars(&name);
        assert(exts@[k as int]@ == route_exts()[k as int]);
        proof {
            assert(route_exts().len() == 4);
            if k >= 1 {
                assert(!fs.contains(canon_spec("middleware."@ + route_exts()[0])));
            }
            if k >= 2 {
                assert(!fs.contains(canon_spec("middleware."@ + route_exts()[1])));
            }
            if k >= 3 {
                assert(!fs.contains(canon_spec("middleware."@ + route_exts()[2])));
            }
        }
        if known_files.contains(&cp) {
            return Some(cp);
        }
        k += 1;
    }
    proof {
        assert(views(exts@).len() == exts@.len());
        assert(k == 4);
        assert(!fs.contains(canon_spec("middleware."@ + route_exts()[0])));
        assert(!fs.contains(canon_spec("middleware."@ + route_exts()[1])));
        assert(!fs.contains(canon_spec("middleware."@ + route_exts()[2])));
        assert(!fs.contains(canon_spec("middleware."@ + route_exts()[3])));
    }
    None
}

/// `insert_by_file` puts the route at the first position whose file does not
/// sort before it.
proof fn lemma_insert_by_file(rs: Seq<RouteView>, m: RouteView, pos: int)
    requires
        0 <= pos <= rs.len(),
        forall|j: int| 0 <= j < pos ==> seq_lt(#[trigger] rs[j].1, m.1),
        pos < rs.len() ==> !seq_lt(rs[pos].1, m.1),
    ensures
        insert_by_file(rs, m) == rs.take(pos) + seq![m] + rs.skip(pos),
    decreases pos,
{
    if pos == 0 {
        assert(rs.skip(0) == rs);
        assert(rs.take(0) + seq![m] + rs == seq![m] + rs);
    } else {
        let t = rs.drop_first();
        assert forall|j: int| 0 <= j < pos - 1 implies seq_lt(#[trigger] t[j].1, m.1) by {
            assert(t[j] == rs[j + 1]);
        }
        if pos - 1 < t.len() {
            assert(t[pos - 1] == rs[pos]);
        }
        lemma_insert_by_file(t, m, pos - 1);
        assert(rs[0].1 == rs[0].1);
        assert(seq_lt(rs[0].1, m.1));
        assert(rs.take(pos) =~= seq![rs[0]] + t.take(pos - 1));
        assert(rs.skip(pos) =~= t.skip(pos - 1));
    }
}

/// Where the middleware route goes among the routes: before the first route
/// whose file does not sort before it.
fn middleware_position(routes: &Vec<NextRoute>, mv: &Vec<char>) -> (pos: usize)
    ensures
        pos <= routes.len(),
        forall|j: int| 0 <= j < pos ==> seq_lt(#[trigger] route_views(routes@)[j].1, mv@),
        pos < routes.len() ==> !seq_lt(route_views(routes@)[pos as int].1, mv@),
{
    let ghost rs = route_views(routes@);
    let mut pos: usize = 0;
    while pos < routes.len()
        invariant
            rs == route_views(routes@),
            pos <= routes.len(),
            forall|j: int| 0 <= j < pos ==> seq_lt(#[trigger] rs[j].1, mv@),
        decreases routes.len() - pos,
    {
        let fcs = routes[pos].file.chars();
        assert(rs[pos as int].1 == fcs@);
        match compare_text(&fcs, mv) {
            TextOrder::Less => {
                pos += 1;
            },
            _ => {
                return pos;
            },
        }
    }
    pos
}

/// The routes of the files in order, with flags for each router seen.
fn scan_files(files: &Vec<CanonicalPath>) -> (r: (Vec<NextRoute>, bool, bool))
    requires
        forall|j: int|
            0 <= j < files@.len() ==> !pages_rest_is_bare_ext(#[trigger] path_views(files@)[j]),
    ensures
        route_views(r.0@) == scan_routes(path_views(files@)),
        r.1 == has_app_route(path_views(files@)),
        r.2 == has_pages_route(path_views(files@)),
{
    let ghost fs = path_views(files@);
    let mut routes: Vec<NextRoute> = Vec::new();
    let mut has_app_router = false;
    let mut has_pages_router = false;
    let mut i: usize = 0;
    assert(fs.skip(0) == fs);
    while i < files.len()
        invariant
            fs == path_views(files@),
            i <= files.len(),
            forall|j: int| 0 <= j < fs.len() ==> !pages_rest_is_bare_ext(#[trigger] fs[j]),
            route_views(routes@) + scan_routes(fs.skip(i as int)) == scan_routes(fs),
            has_app_router == has_app_route(fs.take(i as int)),
            has_pages_router == has_pages_route(fs.take(i as int)),
        decreases files.len() - i,
    {
        let file = &files[i];
        let fv = file.chars();
        let ghost f = fs[i as int];
        assert(f == fv@);
        proof {
            assert(fs.skip(i as int)[0] == f);
            assert(fs.skip(i as int).drop_first() == fs.skip(i + 1));
            assert(!pages_rest_is_bare_ext(fs[i as int]));
        }
        let ghost before = route_views(routes@);
        let mut app_found = false;
        if let Some(rest) = strip_app_prefix(&fv) {
            if let Some((kind, route_path)) = classify_app_route(&rest) {
                has_app_router = true;
                app_found = true;
                routes.push(NextRoute { path: string_of(&route_path), file: file.duplicate(), kind });
            }
        }
        let ghost mid = route_views(routes@);
        assert(mid =~= before + app_route_of(f));
        let mut pages_found = false;
        if let Some(rest) = strip_pages_prefix(&fv) {
            if let Some((kind, route_path)) = classify_pages_route(&rest) {
                has_pages_router = true;
                pages_found = true;
                routes.push(NextRoute { path: string_of(&route_path), file: file.duplicate(), kind });
            }
        }
        assert(route_views(routes@) =~= mid + pages_route_of(f));
        proof {
            assert(app_found == (app_route_of(f).len() > 0));
            assert(pages_found == (pages_route_of(f).len() > 0));
            let t0 = fs.take(i as int);
            let t1 = fs.take(i + 1);
            assert(t1[i as int] == f);
            assert forall|j: int| 0 <= j < i implies t1[j] == t0[j] by {}
            if has_app_route(t1) && !app_found {
                let j = choose|j: int| 0 <= j < t1.len() && app_route_of(t1[j]).len() > 0;
                assert(t0[j] == t1[j]);
            }
            if has_app_route(t0) {
                let j = choose|j: int| 0 <= j < t0.len() && app_route_of(t0[j]).len() > 0;
                assert(t1[j] == t0[j]);
            }
            if has_pages_route(t1) && !pages_found {
                let j = choose|j: int| 0 <= j < t1.len() && pages_route_of(t1[j]).len() > 0;
                assert(t0[j] == t1[j]);
            }
            if has_pages_route(t0) {
                let j = choose|j: int| 0 <= j < t0.len() && pages_route_of(t0[j]).len() > 0;
                assert(t1[j] == t0[j]);
            }
        }
        i += 1;
    }
    proof {
        assert(fs.skip(i as int) == Seq::<Seq<char>>::empty());
        assert(route_views(routes@) + seq![] == route_views(routes@));
        assert(fs.take(i as int) == fs);
    }
    (routes, has_app_router, has_pages_router)
}

/// Strip `app/` or `*/app/` prefix, returning the rest of the path.
pub fn strip_app_prefix(path: &Vec<char>) -> (r: Option<Vec<char>>)
    ensures
        match r {
            Some(rest) => strip_app_prefix_spec(path@) == Some(rest@),
            None => strip_app_prefix_spec(path@) is None,
        },
{
    let p1 = chars_of("app/");
    if let Some(rest) = strip_prefix(path, &p1) {
        return Some(rest);
    }
    let p2 = chars_of("/app/");
    match find(path, &p2) {
        Some(pos) => {
            assert(occurs_at(path@, p2@, pos as int));
            let n = path.len();
            assert(pos as int + p2@.len() <= n);
            let start = pos + p2.len();
            Some(slice(path, start, n))
        },
        None => None,
    }
}

/// Strip `pages/` or `*/pages/` prefix, returning the rest of the path.
pub fn strip_pages_prefix(path: &Vec<char>) -> (r: Option<Vec<char>>)
    ensures
        match r {
            Some(rest) => strip_pages_prefix_spec(path@) == Some(rest@),
            None => strip_pages_prefix_spec(path@) is None,
        },
{
    let p1 = chars_of("pages/");
    if let Some(rest) = strip_prefix(path, &p1) {
        return Some(rest);
    }
    let p2 = chars_of("/pages/");
    match find(path, &p2) {
        Some(pos) => {
            assert(occurs_at(path@, p2@, pos as int));
            let n = path.len();
            assert(pos as int + p2@.len() <= n);
            let start = pos + p2.len();
            Some(slice(path, start, n))
        },
        None => None,
    }
}

/// Check if a filename has a secondary extension that disqualifies it as a route.
pub fn has_non_route_secondary_ext(file_name: &Vec<char>) -> (r: bool)
    ensures
        r == has_non_route_secondary_ext_spec(file_name@),
{
    let parts = split_char(file_name, '.');
    let ghost ps = views(parts@);
    if parts.len() >= 3 {
        let secondary = non_route_extensions();
        let mut k: usize = 1;
        while k < parts.len() - 1
            invariant
                ps == views(parts@),
                ps == split_spec(file_name@, '.'),
                views(secondary@) == non_route_exts(),
                parts.len() >= 3,
                1 <= k <= parts.len() - 1,
                forall|j: int| 1 <= j < k ==> !non_route_exts().contains(ps[j]),
            decreases parts.len() - 1 - k,
        {
            if member(&secondary, &parts[k]) {
                assert(ps[k as int] == parts@[k as int]@);
                return true;
            }
            assert(ps[k as int] == parts@[k as int]@);
            k += 1;
        }
    }
    false
}

fn app_kind_of(stem: &Vec<char>) -> (r: Option<NextRouteKind>)
    ensures
        r == app_kind(stem@),
{
    if eq(stem, &chars_of("page")) {
        Some(NextRouteKind::Page)
    } else if eq(stem, &chars_of("layout")) {
        Some(NextRouteKind::Layout)
    } else if eq(stem, &chars_of("loading")) {
        Some(NextRouteKind::Loading)
    } else if eq(stem, &chars_of("error")) {
        Some(NextRouteKind::Error)
    } else if eq(stem, &chars_of("template")) {
        Some(NextRouteKind::Template)
    } else if eq(stem, &chars_of("not-found")) {
        Some(NextRouteKind::NotFound)
    } else if eq(stem, &chars_of("route")) {
        Some(NextRouteKind::ApiRoute)
    } else {
        None
    }
}

/// Convert a directory path to a route path.
pub fn dir_to_route_path(dir: &Vec<char>) -> (r: Vec<char>)
    ensures
        r@ == route_path_spec(dir@),
{
    if dir.len() == 0 {
        chars_of("/")
    } else {
        concat(&chars_of("/"), dir)
    }
}

/// Classify an App Router file and extract its route path.
pub fn classify_app_route(rest: &Vec<char>) -> (r: Option<(NextRouteKind, Vec<char>)>)
    ensures
        match r {
            Some((k, p)) => classify_app_spec(rest@) == Some((k, p@)),
            None => classify_app_spec(rest@) is None,
        },
{
    let dir_part = match rfind_char(rest, '/') {
        Some(i) => slice(rest, 0, i),
        None => Vec::new(),
    };
    let file_name = after_last(rest, '/');
    if has_non_route_secondary_ext(&file_name) {
        return None;
    }
    let stem = before_first(&file_name, '.');
    let ext = after_last(&file_name, '.');
    if !member(&route_extensions(), &ext) {
        return None;
    }
    let kind = match app_kind_of(&stem) {
        Some(k) => k,
        None => return None,
    };
    let route_path = dir_to_route_path(&dir_part);
    let final_path = if kind == NextRouteKind::ApiRoute {
        concat(&chars_of("API:"), &route_path)
    } else {
        route_path
    };
    Some((kind, final_path))
}

/// Classify a Pages Router file and extract its route path.
pub fn classify_pages_route(rest: &Vec<char>) -> (r: Option<(NextRouteKind, Vec<char>)>)
    requires
        !route_exts().contains(rest@),
    ensures
        match r {
            Some((k, p)) => classify_pages_spec(rest@) == Some((k, p@)),
            None => classify_pages_spec(rest@) is None,
        },
{
    let file_name = after_last(rest, '/');
    if has_non_route_secondary_ext(&file_name) {
        return None;
    }
    let ext = after_last(rest, '.');
    if !member(&route_extensions(), &ext) {
        return None;
    }
    proof {
        lemma_rfind_char(rest@, '.');
        if rfind_char_spec(rest@, '.') is None {
            assert(ext@ == rest@);
        }
    }
    let stem_full = slice(rest, 0, rest.len() - ext.len() - 1);
    let file_stem = after_last(&stem_full, '/');
    if starts_with_char(&file_stem, '_') {
        return None;
    }
    if starts_with(rest, &chars_of("api/")) {
        let route = concat(&chars_of("API:/"), &stem_full);
        return Some((NextRouteKind::ApiRoute, route));
    }
    let route = if eq(&stem_full, &chars_of("index")) {
        chars_of("/")
    } else if let Some(prefix) = strip_suffix(&stem_full, &chars_of("/index")) {
        concat(&chars_of("/"), &prefix)
    } else {
        concat(&chars_of("/"), &stem_full)
    };
    Some((NextRouteKind::Page, route))
}

/// Discover Next.js routes from filesystem conventions: `middleware.<ext>`
/// at the root, App Router convention files under `app/` and Pages Router
/// files under `pages/`, ordered by file. `None` when there are none.
pub fn discover_next_routes(
    _project_root: &str,
    known_files: &FileSet,
    _diag: &DiagnosticCollector,
) -> (r: Option<NextRouteInfo>)
    requires
        forall|i: int|
            0 <= i < known_files@.len() ==> !pages_rest_is_bare_ext(#[trigger] known_files@[i]),
    ensures
        match r {
            Some(info) => {
                &&& all_routes_spec(known_files@).len() > 0
                &&& route_views(info.routes@) == all_routes_spec(known_files@)
                &&& info.router_type == router_type_spec(known_files@)
            },
            None => all_routes_spec(known_files@).len() == 0,
        },
{
    let files = known_files.paths();
    let ghost fs = known_files@;
    let (mut routes, has_app_router, has_pages_router) = scan_files(files);
    // Middleware at the project root, placed in file order.
    let middleware = find_middleware(known_files);
    if let Some(m) = middleware {
        let mv = m.chars();
        let ghost mr: RouteView = ("/"@, m@, NextRouteKind::Middleware);
        let pos = middleware_position(&routes, &mv);
        let ghost before = route_views(routes@);
        proof {
            lemma_insert_by_file(before, mr, pos as int);
        }
        let mr_exec = NextRoute { path: string_of(&chars_of("/")), file: m, kind: NextRouteKind::Middleware };
        assert(route_view(mr_exec) == mr);
        routes.insert(pos, mr_exec);
        assert(route_views(routes@) =~= before.take(pos as int) + seq![mr] + before.skip(pos as int));
    }
    if routes.len() == 0 {
        return None;
    }
    let router_type = if has_app_router && has_pages_router {
        NextRouterType::Both
    } else if has_app_router {
        NextRouterType::AppRouter
    } else if has_pages_router {
        NextRouterType::PagesRouter
    } else {
        NextRouterType::AppRouter
    };
    Some(NextRouteInfo { routes, router_type })
}

} // verus!
