use ariadne_graph::model::{ArchLayer, CanonicalPath, Cluster, ClusterId, FileNode, FileType, TextMap};
use ariadne_graph::recommend::placement::{
    common_path_prefix, most_common_extension, sanitize_to_filename, suggest_placement,
};
use ariadne_graph::recommend::refactor::determine_data_quality;
use ariadne_graph::recommend::types::{DataQuality, PlacementSuggestion};

fn make_node(cluster: &str, layer: ArchLayer, depth: u32) -> FileNode {
    FileNode {
        file_type: FileType::Source,
        layer,
        fsd_layer: None,
        arch_depth: depth,
        lines: 100,
        hash: "0000000000000000".to_string(),
        exports: vec![],
        cluster: ClusterId::new(cluster),
        symbols: vec![],
    }
}

fn p(s: &str) -> CanonicalPath {
    CanonicalPath::new(s)
}

fn add_node(nodes: &mut TextMap<FileNode>, path: &str, cluster: &str, layer: ArchLayer, depth: u32) {
    nodes.insert(p(path).as_str().to_string(), make_node(cluster, layer, depth));
}

fn add_cluster(clusters: &mut TextMap<Cluster>, name: &str, files: &[&str]) {
    let files: Vec<CanonicalPath> = files.iter().map(|f| p(f)).collect();
    clusters.insert(
        name.to_string(),
        Cluster {
            file_count: files.len(),
            files,
            internal_edges: 0,
            external_edges: 0,
        },
    );
}

fn place(
    desc: &str,
    deps: &[CanonicalPath],
    revs: &[CanonicalPath],
    nodes: &TextMap<FileNode>,
    clusters: &TextMap<Cluster>,
) -> PlacementSuggestion {
    suggest_placement(desc, deps, revs, nodes, clusters, &Vec::new())
}

#[test]
fn empty_inputs_returns_minimal() {
    let result = place("test module", &[], &[], &TextMap::new(), &TextMap::new());
    assert_eq!(result.suggested_path, "src/new_module");
    assert_eq!(result.data_quality, DataQuality::Minimal);
}

#[test]
fn single_dependency_places_in_same_cluster() {
    let mut nodes = TextMap::new();
    add_node(&mut nodes, "src/auth/login.rs", "auth", ArchLayer::Service, 2);
    let mut clusters = TextMap::new();
    add_cluster(&mut clusters, "auth", &["src/auth/login.rs"]);

    let result = place("auth helper", &[p("src/auth/login.rs")], &[], &nodes, &clusters);

    assert_eq!(result.cluster, "auth");
    assert!(result.suggested_path.starts_with("src/auth/"));
    assert!(result.suggested_path.contains("auth_helper"));
    assert_eq!(result.arch_depth, 3);
    assert_eq!(result.data_quality, DataQuality::Structured);
}

#[test]
fn sanitize_to_filename_basic() {
    assert_eq!(sanitize_to_filename("Auth Helper"), "auth_helper");
    assert_eq!(sanitize_to_filename("  spaces  "), "spaces");
    assert_eq!(sanitize_to_filename("a--b!!c"), "a_b_c");
    assert_eq!(sanitize_to_filename(""), "new_module");
}

#[test]
fn common_path_prefix_shared() {
    let a = p("src/auth/login.rs");
    let b = p("src/auth/session.rs");
    assert_eq!(common_path_prefix(&vec![a, b]), "src/auth/");
}

#[test]
fn common_path_prefix_no_shared() {
    let a = p("src/login.rs");
    let b = p("lib/session.rs");
    assert_eq!(common_path_prefix(&vec![a, b]), "");
}

#[test]
fn most_common_extension_picks_majority() {
    let a = p("a.ts");
    let b = p("b.ts");
    let c = p("c.rs");
    assert_eq!(most_common_extension(&vec![a, b, c]), "ts");
}

#[test]
fn all_deps_same_cluster_selects_that_cluster() {
    let mut nodes = TextMap::new();
    let files = ["src/auth/login.rs", "src/auth/session.rs", "src/auth/token.rs"];
    for f in files.iter() {
        add_node(&mut nodes, f, "auth", ArchLayer::Service, 2);
    }
    let mut clusters = TextMap::new();
    add_cluster(&mut clusters, "auth", &files);
    let deps: Vec<CanonicalPath> = files.iter().map(|f| p(f)).collect();

    let result = place("auth middleware", &deps, &[], &nodes, &clusters);

    assert_eq!(result.cluster, "auth");
    assert!(result.suggested_path.starts_with("src/auth/"));
}

#[test]
fn layer_inference_from_dep_depths() {
    let mut nodes = TextMap::new();
    add_node(&mut nodes, "src/a.rs", "core", ArchLayer::Service, 2);
    add_node(&mut nodes, "src/b.rs", "core", ArchLayer::Service, 2);
    add_node(&mut nodes, "src/c.rs", "core", ArchLayer::Data, 1);
    let mut clusters = TextMap::new();
    add_cluster(&mut clusters, "core", &["src/a.rs", "src/b.rs", "src/c.rs"]);

    let result = place(
        "new service",
        &[p("src/a.rs"), p("src/b.rs"), p("src/c.rs")],
        &[],
        &nodes,
        &clusters,
    );

    assert!(result.arch_depth >= 2);
}

fn auth_users(with_config: bool) -> (TextMap<FileNode>, TextMap<Cluster>, Vec<CanonicalPath>) {
    let mut nodes = TextMap::new();
    let auth: Vec<String> = (0..3).map(|i| format!("src/auth/f{}.rs", i)).collect();
    let users: Vec<String> = (0..2).map(|i| format!("src/users/f{}.rs", i)).collect();
    for f in auth.iter() {
        add_node(&mut nodes, f, "auth", ArchLayer::Service, 2);
    }
    for f in users.iter() {
        add_node(&mut nodes, f, "users", ArchLayer::Service, 2);
    }
    let mut clusters = TextMap::new();
    let auth_refs: Vec<&str> = auth.iter().map(|s| s.as_str()).collect();
    let users_refs: Vec<&str> = users.iter().map(|s| s.as_str()).collect();
    add_cluster(&mut clusters, "auth", &auth_refs);
    add_cluster(&mut clusters, "users", &users_refs);
    let mut deps: Vec<CanonicalPath> = auth.iter().chain(users.iter()).map(|f| p(f)).collect();
    if with_config {
        add_node(&mut nodes, "src/config/f0.rs", "config", ArchLayer::Config, 0);
        add_cluster(&mut clusters, "config", &["src/config/f0.rs"]);
        deps.push(p("src/config/f0.rs"));
    }
    (nodes, clusters, deps)
}

#[test]
fn alternatives_have_risk_annotations() {
    let (nodes, clusters, deps) = auth_users(false);
    let result = place("shared module", &deps, &[], &nodes, &clusters);
    assert!(
        result.alternatives.iter().all(|a| !a.risk.is_empty()),
        "All alternatives must have non-empty risk annotations"
    );
}

#[test]
fn alternatives_ordered_by_decreasing_score() {
    let (nodes, clusters, deps) = auth_users(true);
    let result = place("cross module", &deps, &[], &nodes, &clusters);

    assert_eq!(result.cluster, "auth");
    assert!(result.alternatives.len() >= 2);
    let user_idx = result.alternatives.iter().position(|a| a.cluster == "users");
    let config_idx = result.alternatives.iter().position(|a| a.cluster == "config");
    assert!(
        user_idx.unwrap() < config_idx.unwrap(),
        "users (2 votes) should appear before config (1 vote)"
    );
}

#[test]
fn at_most_three_alternatives() {
    let mut nodes = TextMap::new();
    let cluster_names = ["alpha", "bravo", "charlie", "delta", "echo"];
    let mut clusters = TextMap::new();
    for (i, name) in cluster_names.iter().enumerate() {
        let f = format!("src/{}/f.rs", name);
        add_node(&mut nodes, &f, name, ArchLayer::Service, 2);
        let mut files = vec![f.clone()];
        if i == 0 {
            let g = format!("src/{}/g.rs", name);
            add_node(&mut nodes, &g, name, ArchLayer::Service, 2);
            files.push(g);
        }
        let refs: Vec<&str> = files.iter().map(|s| s.as_str()).collect();
        add_cluster(&mut clusters, name, &refs);
    }
    let mut deps: Vec<CanonicalPath> = cluster_names
        .iter()
        .map(|name| p(&format!("src/{}/f.rs", name)))
        .collect();
    deps.push(p("src/alpha/g.rs"));

    let result = place("multi cluster", &deps, &[], &nodes, &clusters);

    assert!(
        result.alternatives.len() <= 3,
        "Should have at most 3 alternatives, got {}",
        result.alternatives.len()
    );
}

#[test]
fn unknown_paths_silently_skipped() {
    let result = place(
        "ghost module",
        &[p("nonexistent/file.rs")],
        &[],
        &TextMap::new(),
        &TextMap::new(),
    );
    assert_eq!(result.data_quality, DataQuality::Minimal);
}

#[test]
fn placement_deterministic_output() {
    let mut nodes = TextMap::new();
    add_node(&mut nodes, "src/auth/login.rs", "auth", ArchLayer::Service, 2);
    add_node(&mut nodes, "src/users/profile.rs", "users", ArchLayer::Service, 1);
    let mut clusters = TextMap::new();
    add_cluster(&mut clusters, "auth", &["src/auth/login.rs"]);
    add_cluster(&mut clusters, "users", &["src/users/profile.rs"]);
    let deps = vec![p("src/auth/login.rs"), p("src/users/profile.rs")];

    let r1 = place("det test", &deps, &[], &nodes, &clusters);
    let r2 = place("det test", &deps, &[], &nodes, &clusters);

    let j1 = format!("{:?}", r1);
    let j2 = format!("{:?}", r2);
    assert_eq!(j1, j2, "Output must be byte-identical across runs");
}

#[test]
fn data_quality_structural_when_populated() {
    let mut nodes = TextMap::new();
    add_node(&mut nodes, "src/a.rs", "core", ArchLayer::Service, 1);
    let mut clusters = TextMap::new();
    add_cluster(&mut clusters, "core", &["src/a.rs"]);
    let result = place("quality test", &[p("src/a.rs")], &[], &nodes, &clusters);
    assert_eq!(result.data_quality, DataQuality::Structured);
}

#[test]
fn data_quality_minimal_when_empty_clusters() {
    let result = place("quality test", &[], &[], &TextMap::new(), &TextMap::new());
    assert_eq!(result.data_quality, DataQuality::Minimal);
}

#[test]
fn equal_cluster_split_deterministic() {
    let mut nodes = TextMap::new();
    for f in ["src/auth/a.rs", "src/auth/b.rs"].iter() {
        add_node(&mut nodes, f, "auth", ArchLayer::Service, 2);
    }
    for f in ["src/users/a.rs", "src/users/b.rs"].iter() {
        add_node(&mut nodes, f, "users", ArchLayer::Service, 2);
    }
    let mut clusters = TextMap::new();
    add_cluster(&mut clusters, "auth", &["src/auth/a.rs", "src/auth/b.rs"]);
    add_cluster(&mut clusters, "users", &["src/users/a.rs", "src/users/b.rs"]);
    let deps = vec![
        p("src/auth/a.rs"),
        p("src/auth/b.rs"),
        p("src/users/a.rs"),
        p("src/users/b.rs"),
    ];

    let r1 = place("split test", &deps, &[], &nodes, &clusters);
    let r2 = place("split test", &deps, &[], &nodes, &clusters);

    assert_eq!(r1.cluster, r2.cluster);
    let other = if r1.cluster == "auth" { "users" } else { "auth" };
    assert!(
        r1.alternatives.iter().any(|a| a.cluster == other),
        "The other cluster should appear as an alternative"
    );
}

#[test]
fn mixed_found_and_not_found_dependencies() {
    let mut nodes = TextMap::new();
    add_node(&mut nodes, "src/auth/login.rs", "auth", ArchLayer::Service, 2);
    let mut clusters = TextMap::new();
    add_cluster(&mut clusters, "auth", &["src/auth/login.rs"]);

    let result = place(
        "mixed deps",
        &[p("src/auth/login.rs"), p("src/missing/gone.rs")],
        &[],
        &nodes,
        &clusters,
    );

    assert_eq!(result.cluster, "auth");
    assert!(
        result.reasoning.iter().any(|r| r.contains("could not be resolved")),
        "Should mention unresolved paths in reasoning"
    );
}

#[test]
fn conflicting_layer_constraints() {
    let mut nodes = TextMap::new();
    add_node(&mut nodes, "src/deep/a.rs", "deep", ArchLayer::Api, 3);
    add_node(&mut nodes, "src/shallow/b.rs", "shallow", ArchLayer::Data, 1);
    let mut clusters = TextMap::new();
    add_cluster(&mut clusters, "deep", &["src/deep/a.rs"]);
    add_cluster(&mut clusters, "shallow", &["src/shallow/b.rs"]);

    let result = place(
        "conflict test",
        &[p("src/deep/a.rs")],
        &[p("src/shallow/b.rs")],
        &nodes,
        &clusters,
    );

    assert!(result.arch_depth > 0);
    assert!(
        result.reasoning.iter().any(|r| r.contains("Layer conflict") || r.contains("layer conflict")),
        "Should mention layer conflict in reasoning: {:?}",
        result.reasoning
    );
}

#[test]
fn depended_by_only() {
    let mut nodes = TextMap::new();
    add_node(&mut nodes, "src/svc/handler.rs", "svc", ArchLayer::Service, 3);
    let mut clusters = TextMap::new();
    add_cluster(&mut clusters, "svc", &["src/svc/handler.rs"]);

    let result = place("stable base", &[], &[p("src/svc/handler.rs")], &nodes, &clusters);

    assert_eq!(result.cluster, "svc");
    assert!(result.arch_depth <= 3);
}

#[test]
fn very_long_description_no_panic() {
    let long_desc = "a".repeat(10_000);
    let result = place(&long_desc, &[], &[], &TextMap::new(), &TextMap::new());
    assert!(result.suggested_path.len() <= 200);
}

#[test]
fn special_characters_in_description() {
    let mut nodes = TextMap::new();
    add_node(&mut nodes, "src/auth/login.rs", "auth", ArchLayer::Service, 2);
    let mut clusters = TextMap::new();
    add_cluster(&mut clusters, "auth", &["src/auth/login.rs"]);

    let result = place(
        "user/authentication & session-management (v2)",
        &[p("src/auth/login.rs")],
        &[],
        &nodes,
        &clusters,
    );

    let filename = result
        .suggested_path
        .rsplit('/')
        .next()
        .unwrap_or(&result.suggested_path);
    for ch in filename.chars() {
        assert!(
            ch.is_ascii_alphanumeric() || ch == '_' || ch == '.' || ch == '-',
            "Unexpected character '{}' in suggested filename: {}",
            ch,
            filename
        );
    }
}

#[test]
fn all_deps_same_layer() {
    let mut nodes = TextMap::new();
    add_node(&mut nodes, "src/svc/a.rs", "svc", ArchLayer::Service, 2);
    add_node(&mut nodes, "src/svc/b.rs", "svc", ArchLayer::Service, 2);
    let mut clusters = TextMap::new();
    add_cluster(&mut clusters, "svc", &["src/svc/a.rs", "src/svc/b.rs"]);

    let result = place(
        "svc util",
        &[p("src/svc/a.rs"), p("src/svc/b.rs")],
        &[],
        &nodes,
        &clusters,
    );

    assert!(
        result.arch_depth >= 2,
        "arch_depth should be >= 2 (max dep depth), got {}",
        result.arch_depth
    );
}

#[test]
fn large_input_no_perf_degradation() {
    let mut nodes = TextMap::new();
    let mut all_deps = Vec::new();
    for i in 0..300 {
        let cluster_name = format!("c{}", i % 10);
        let path = format!("src/{}/f{}.rs", cluster_name, i);
        add_node(&mut nodes, &path, &cluster_name, ArchLayer::Service, 2);
        all_deps.push(p(&path));
    }
    let mut clusters = TextMap::new();
    for i in 0..10 {
        let name = format!("c{}", i);
        let files: Vec<String> = (0..30).map(|j| format!("src/{}/f{}.rs", name, i + j * 10)).collect();
        let refs: Vec<&str> = files.iter().map(|s| s.as_str()).collect();
        add_cluster(&mut clusters, &name, &refs);
    }

    let result = place("large test", &all_deps, &[], &nodes, &clusters);

    assert!(!result.cluster.is_empty());
    assert!(!result.suggested_path.is_empty());
}

#[test]
fn empty_clusters_with_resolved_deps() {
    let mut nodes = TextMap::new();
    add_node(&mut nodes, "src/a.rs", "orphan", ArchLayer::Service, 1);
    let result = place("orphan test", &[p("src/a.rs")], &[], &nodes, &TextMap::new());
    assert!(!result.suggested_path.is_empty());
}

#[test]
fn empty_layers_map() {
    let mut nodes = TextMap::new();
    add_node(&mut nodes, "src/a.rs", "core", ArchLayer::Service, 1);
    let mut clusters = TextMap::new();
    add_cluster(&mut clusters, "core", &["src/a.rs"]);
    let result = place("no layers", &[p("src/a.rs")], &[], &nodes, &clusters);
    assert_eq!(result.cluster, "core");
    assert!(!result.layer.is_empty());
}

#[test]
fn circular_dependency_warning() {
    let mut nodes = TextMap::new();
    add_node(&mut nodes, "src/a.rs", "core", ArchLayer::Service, 1);
    let mut clusters = TextMap::new();
    add_cluster(&mut clusters, "core", &["src/a.rs"]);
    let result = place("circular test", &[p("src/a.rs")], &[p("src/a.rs")], &nodes, &clusters);
    assert!(result.reasoning.iter().any(|r| r.contains("circular dependency")));
}

#[test]
fn duplicate_inputs_deduplicated() {
    let mut nodes = TextMap::new();
    add_node(&mut nodes, "src/a.rs", "core", ArchLayer::Util, 0);
    let mut clusters = TextMap::new();
    add_cluster(&mut clusters, "core", &["src/a.rs"]);
    let result = place("dedup test", &[p("src/a.rs"), p("src/a.rs")], &[], &nodes, &clusters);
    assert!(result.reasoning[0].contains("1/1"));
}

#[test]
fn placement_exact_path_and_layer() {
    let mut nodes = TextMap::new();
    add_node(&mut nodes, "src/auth/login.rs", "auth", ArchLayer::Service, 2);
    let mut clusters = TextMap::new();
    add_cluster(&mut clusters, "auth", &["src/auth/login.rs"]);
    let result = place("Auth Helper", &[p("src/auth/login.rs")], &[], &nodes, &clusters);
    assert_eq!(result.suggested_path, "src/auth/auth_helper.rs");
    assert_eq!(result.layer, "service");
}

#[test]
fn placement_avoids_taken_name() {
    let mut nodes = TextMap::new();
    add_node(&mut nodes, "src/auth/login.rs", "auth", ArchLayer::Service, 2);
    add_node(&mut nodes, "src/auth/helper.rs", "auth", ArchLayer::Service, 2);
    let mut clusters = TextMap::new();
    add_cluster(&mut clusters, "auth", &["src/auth/login.rs", "src/auth/helper.rs"]);
    let result = place("helper", &[p("src/auth/login.rs")], &[], &nodes, &clusters);
    assert_ne!(result.suggested_path, "src/auth/helper.rs");
    assert!(result.suggested_path.starts_with("src/auth/helper"));
}

#[test]
fn test_data_quality_determination() {
    assert_eq!(determine_data_quality(true, true), DataQuality::Full);
    assert_eq!(determine_data_quality(false, false), DataQuality::Minimal);
    assert_eq!(determine_data_quality(true, false), DataQuality::Structured);
    assert_eq!(determine_data_quality(false, true), DataQuality::Structured);
}

#[test]
fn vote_share_is_computed_as_floating_point_percent() {
    // 29 of 100 votes: 29.0 / 100.0 * 100.0 is 28.999999999999996, shown as 28%.
    let mut nodes = TextMap::new();
    let mut deps = Vec::new();
    let groups = [("a", 29), ("b", 24), ("c", 24), ("d", 23)];
    for (cluster, n) in groups.iter() {
        for i in 0..*n {
            let path = format!("{}/f{}.rs", cluster, i);
            add_node(&mut nodes, &path, cluster, ArchLayer::Service, 1);
            deps.push(p(&path));
        }
    }
    let result = place("widget", &deps, &[], &nodes, &TextMap::new());
    assert!(result.reasoning.iter().any(|l| l == "Cluster 'a' selected with 29/100 dependency votes (28%)"));
    assert!(result.reasoning.iter().any(|l| l == "Confidence is moderate (28% < 80%); consider alternatives"));
}

#[test]
fn dependency_order_and_repeats_do_not_matter() {
    let mut nodes = TextMap::new();
    add_node(&mut nodes, "a/x.rs", "a", ArchLayer::Service, 2);
    add_node(&mut nodes, "b/y.rs", "b", ArchLayer::Service, 3);
    let first = place("thing", &[p("a/x.rs"), p("b/y.rs")], &[], &nodes, &TextMap::new());
    let second = place("thing", &[p("b/y.rs"), p("a/x.rs"), p("b/y.rs")], &[], &nodes, &TextMap::new());
    assert_eq!(first.suggested_path, second.suggested_path);
    assert_eq!(first.cluster, second.cluster);
    assert_eq!(first.reasoning, second.reasoning);
}

#[test]
fn file_names_use_lower_case_ascii_digits_and_underscores() {
    let name = sanitize_to_filename("Ärger ÜBER Kelvin \u{212A} 42");
    assert_eq!(name, "rger_ber_kelvin_k_42");
    assert!(name.chars().all(|c| c.is_ascii_lowercase() || c.is_ascii_digit() || c == '_'));
}
