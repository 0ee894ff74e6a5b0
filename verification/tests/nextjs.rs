use ariadne_graph::diagnostic::DiagnosticCollector;
use ariadne_graph::model::{CanonicalPath, FileSet};
use ariadne_graph::parser::config::nextjs::{
    discover_next_routes, NextRouteInfo, NextRouteKind, NextRouterType,
};

fn make_files(paths: &[&str]) -> FileSet {
    FileSet::from_paths(paths.iter().map(|p| CanonicalPath::new(p)).collect())
}

fn discover(paths: &[&str]) -> Option<NextRouteInfo> {
    let files = make_files(paths);
    let diag = DiagnosticCollector::new();
    discover_next_routes(".", &files, &diag)
}

// --- SC-19: App Router page ---

#[test]
fn app_router_page() {
    let info = discover(&["app/dashboard/page.tsx"]).unwrap();
    assert_eq!(info.router_type, NextRouterType::AppRouter);
    assert_eq!(info.routes.len(), 1);
    assert_eq!(info.routes[0].path, "/dashboard");
    assert_eq!(info.routes[0].kind, NextRouteKind::Page);
}

// --- SC-20: App Router API route ---

#[test]
fn app_router_api_route() {
    let info = discover(&["app/api/users/route.ts"]).unwrap();
    assert_eq!(info.routes.len(), 1);
    assert_eq!(info.routes[0].path, "API:/api/users");
    assert_eq!(info.routes[0].kind, NextRouteKind::ApiRoute);
}

// --- SC-21: App Router layout ---

#[test]
fn app_router_layout() {
    let info = discover(&["app/dashboard/layout.tsx"]).unwrap();
    assert_eq!(info.routes[0].path, "/dashboard");
    assert_eq!(info.routes[0].kind, NextRouteKind::Layout);
}

// --- SC-22: Middleware ---

#[test]
fn middleware_at_root() {
    let info = discover(&["middleware.ts"]).unwrap();
    assert_eq!(info.routes.len(), 1);
    assert_eq!(info.routes[0].kind, NextRouteKind::Middleware);
}

// --- SC-23: Pages Router ---

#[test]
fn pages_router_page() {
    let info = discover(&["pages/about.tsx"]).unwrap();
    assert_eq!(info.router_type, NextRouterType::PagesRouter);
    assert_eq!(info.routes.len(), 1);
    assert_eq!(info.routes[0].path, "/about");
    assert_eq!(info.routes[0].kind, NextRouteKind::Page);
}

#[test]
fn pages_router_index() {
    let info = discover(&["pages/index.tsx"]).unwrap();
    assert_eq!(info.routes[0].path, "/");
}

#[test]
fn pages_router_nested_index() {
    let info = discover(&["pages/blog/index.tsx"]).unwrap();
    assert_eq!(info.routes[0].path, "/blog");
}

#[test]
fn pages_router_api() {
    let info = discover(&["pages/api/users.ts"]).unwrap();
    assert_eq!(info.routes[0].path, "API:/api/users");
    assert_eq!(info.routes[0].kind, NextRouteKind::ApiRoute);
}

#[test]
fn pages_router_skips_internal() {
    let info = discover(&["pages/_app.tsx", "pages/_document.tsx", "pages/index.tsx"]);
    let info = info.unwrap();
    // Only index should be discovered, _app and _document are internal
    assert_eq!(info.routes.len(), 1);
    assert_eq!(info.routes[0].path, "/");
}

// --- SC-24: Both routers ---

#[test]
fn both_routers_detected() {
    let info = discover(&[
        "app/dashboard/page.tsx",
        "pages/about.tsx",
    ])
    .unwrap();
    assert_eq!(info.router_type, NextRouterType::Both);
    assert_eq!(info.routes.len(), 2);
}

// --- App Router convention files ---

#[test]
fn app_router_loading() {
    let info = discover(&["app/dashboard/loading.tsx"]).unwrap();
    assert_eq!(info.routes[0].kind, NextRouteKind::Loading);
}

#[test]
fn app_router_error() {
    let info = discover(&["app/dashboard/error.tsx"]).unwrap();
    assert_eq!(info.routes[0].kind, NextRouteKind::Error);
}

#[test]
fn app_router_template() {
    let info = discover(&["app/dashboard/template.tsx"]).unwrap();
    assert_eq!(info.routes[0].kind, NextRouteKind::Template);
}

#[test]
fn app_router_not_found() {
    let info = discover(&["app/not-found.tsx"]).unwrap();
    assert_eq!(info.routes[0].kind, NextRouteKind::NotFound);
}

// --- Root page ---

#[test]
fn app_router_root_page() {
    let info = discover(&["app/page.tsx"]).unwrap();
    assert_eq!(info.routes[0].path, "/");
    assert_eq!(info.routes[0].kind, NextRouteKind::Page);
}

// --- Dynamic routes ---

#[test]
fn app_router_dynamic_route() {
    let info = discover(&["app/blog/[slug]/page.tsx"]).unwrap();
    assert_eq!(info.routes[0].path, "/blog/[slug]");
}

// --- No routes ---

#[test]
fn no_next_routes_returns_none() {
    assert!(discover(&["src/utils.ts"]).is_none());
}

// --- Non-route files in app/ ignored ---

#[test]
fn non_convention_file_in_app_ignored() {
    let info = discover(&["app/dashboard/utils.ts"]);
    assert!(info.is_none());
}

#[test]
fn styles_file_in_pages_not_a_route() {
    let info = discover(&[
        "pages/Login/Login.tsx",
        "pages/Login/Login.styles.ts",
    ])
    .unwrap();
    assert_eq!(info.routes.len(), 1);
    assert_eq!(info.routes[0].file.as_str(), "pages/Login/Login.tsx");
}

#[test]
fn test_file_in_app_not_a_route() {
    let info = discover(&[
        "app/dashboard/page.tsx",
        "app/dashboard/page.test.tsx",
    ])
    .unwrap();
    assert_eq!(info.routes.len(), 1);
    assert_eq!(info.routes[0].file.as_str(), "app/dashboard/page.tsx");
}

// --- Deterministic route order ---

#[test]
fn routes_sorted_by_file_path() {
    let info = discover(&[
        "app/z/page.tsx",
        "app/a/page.tsx",
        "app/m/page.tsx",
    ])
    .unwrap();
    let files: Vec<&str> = info.routes.iter().map(|r| r.file.as_str()).collect();
    let mut sorted = files.clone();
    sorted.sort();
    assert_eq!(files, sorted);
}

#[test]
fn middleware_sorted_among_routes() {
    let info = discover(&["app/page.tsx", "middleware.js", "pages/z.tsx"]).unwrap();
    let files: Vec<&str> = info.routes.iter().map(|r| r.file.as_str()).collect();
    assert_eq!(files, vec!["app/page.tsx", "middleware.js", "pages/z.tsx"]);
    assert_eq!(info.routes[1].kind, NextRouteKind::Middleware);
    assert_eq!(info.routes[1].path, "/");
}

#[test]
fn middleware_only_counts_as_app_router() {
    let info = discover(&["middleware.tsx"]).unwrap();
    assert_eq!(info.router_type, NextRouterType::AppRouter);
}

#[test]
fn monorepo_app_dir_recognised() {
    let info = discover(&["packages/web/app/settings/page.tsx"]).unwrap();
    assert_eq!(info.routes[0].path, "/settings");
}

#[test]
fn pages_api_nested_path() {
    let info = discover(&["pages/api/users/[id].ts"]).unwrap();
    assert_eq!(info.routes[0].path, "API:/api/users/[id]");
}
