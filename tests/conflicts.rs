use insidious::{
    calculate_path_similarity, check_route_conflicts, classify_pair, create_analysis_config_from_analyze,
    extract_all_routes, AnalysisConfig, ConflictKind, Route, Similarity, SourceFile,
};

fn route(method: &str, path: &str, file: &str, line: usize) -> Route {
    Route { path: path.to_string(), method: method.to_string(), file_path: file.to_string(), line_number: line }
}

fn config(threshold_bp: u32) -> AnalysisConfig {
    create_analysis_config_from_analyze(".", &vec![], &vec!["js".to_string()], threshold_bp)
}

#[test]
fn identical_path_is_full_similarity() {
    let s = calculate_path_similarity("/users", "/users");
    assert_eq!(s, Similarity { matched: 6, total: 6 });
}

#[test]
fn empty_paths_have_zero_similarity() {
    let s = calculate_path_similarity("", "");
    assert_eq!(s, Similarity { matched: 0, total: 0 });
    assert!(!s.exceeds(0));
}

#[test]
fn similarity_is_symmetric_on_examples() {
    for (a, b) in [("/users/:id", "/users/:name"), ("/a/b/c", "/c/b/a"), ("abc", ""), ("/x", "/xyz/q")] {
        assert_eq!(calculate_path_similarity(a, b), calculate_path_similarity(b, a));
    }
}

#[test]
fn similarity_counts_unchanged_characters() {
    assert_eq!(calculate_path_similarity("/users/:id", "/users/:name"), Similarity { matched: 8, total: 12 });
    assert_eq!(calculate_path_similarity("/users/:id", "/users/:ix"), Similarity { matched: 9, total: 10 });
    assert_eq!(calculate_path_similarity("abc", "xyz"), Similarity { matched: 0, total: 3 });
    assert_eq!(calculate_path_similarity("abcd", "bcde"), Similarity { matched: 3, total: 4 });
}

#[test]
fn threshold_comparison_is_strict() {
    let s = Similarity { matched: 7, total: 10 };
    assert!(!s.exceeds(7000));
    assert!(s.exceeds(6999));
    assert!(Similarity::full().exceeds(9999));
    assert!(!Similarity::full().exceeds(10000));
}

#[test]
fn exact_conflict_across_files() {
    let files = vec![
        SourceFile { path: "a.js".to_string(), content: "router.get('/users', h)".to_string() },
        SourceFile { path: "b.js".to_string(), content: "app.get('/users', h2)".to_string() },
    ];
    let routes = extract_all_routes(&files);
    for threshold in [0u32, 7000, 10000] {
        let conflicts = check_route_conflicts(&routes, &config(threshold));
        assert_eq!(conflicts.len(), 1);
        assert_eq!(conflicts[0].conflict_type, ConflictKind::ExactMatch);
        assert_eq!(conflicts[0].similarity, Similarity { matched: 1, total: 1 });
        assert_eq!(conflicts[0].route1.file_path, "a.js");
        assert_eq!(conflicts[0].route2.file_path, "b.js");
    }
}

#[test]
fn parameter_conflict_below_threshold_is_omitted() {
    let routes = vec![route("GET", "/users/:id", "a.js", 1), route("GET", "/users/:name", "a.js", 2)];
    assert!(check_route_conflicts(&routes, &config(7000)).is_empty());
    let lower = check_route_conflicts(&routes, &config(6000));
    assert_eq!(lower.len(), 1);
    assert_eq!(lower[0].conflict_type, ConflictKind::ParameterConflict);
    assert_eq!(lower[0].similarity, Similarity { matched: 8, total: 12 });
}

#[test]
fn parameter_conflict_above_threshold_is_flagged() {
    let routes = vec![route("GET", "/users/:id", "a.js", 1), route("GET", "/users/:ix", "b.js", 5)];
    let conflicts = check_route_conflicts(&routes, &config(7000));
    assert_eq!(conflicts.len(), 1);
    assert_eq!(conflicts[0].conflict_type, ConflictKind::ParameterConflict);
    assert_eq!(conflicts[0].similarity, Similarity { matched: 9, total: 10 });
    assert_eq!(conflicts[0].route1.path, "/users/:id");
    assert_eq!(conflicts[0].route2.path, "/users/:ix");
}

#[test]
fn different_methods_never_conflict() {
    let routes = vec![route("GET", "/users/:id", "a.js", 1), route("POST", "/users/:id", "a.js", 2)];
    for threshold in [0u32, 7000] {
        assert!(check_route_conflicts(&routes, &config(threshold)).is_empty());
    }
}

#[test]
fn different_segment_counts_never_conflict() {
    let routes = vec![route("GET", "/users/:id", "a.js", 1), route("GET", "/users/:id/x", "a.js", 2)];
    assert!(check_route_conflicts(&routes, &config(0)).is_empty());
}

#[test]
fn static_segments_never_make_parameter_conflict() {
    let routes = vec![route("GET", "/users/abc", "a.js", 1), route("GET", "/users/abd", "a.js", 2)];
    assert!(check_route_conflicts(&routes, &config(0)).is_empty());
}

#[test]
fn every_pair_is_compared_in_order() {
    let routes = vec![
        route("GET", "/a", "f.js", 1),
        route("GET", "/a", "f.js", 2),
        route("GET", "/a", "f.js", 3),
    ];
    let conflicts = check_route_conflicts(&routes, &config(7000));
    let pairs: Vec<(usize, usize)> =
        conflicts.iter().map(|c| (c.route1.line_number, c.route2.line_number)).collect();
    assert_eq!(pairs, vec![(1, 2), (1, 3), (2, 3)]);
}

#[test]
fn classify_pair_uses_given_similarity() {
    let a = route("GET", "/users/:id", "a.js", 1);
    let b = route("GET", "/users/:name", "a.js", 2);
    assert_eq!(classify_pair(&a, &b, Similarity { matched: 71, total: 100 }, 7000), Some(ConflictKind::ParameterConflict));
    assert_eq!(classify_pair(&a, &b, Similarity { matched: 70, total: 100 }, 7000), None);
    assert_eq!(classify_pair(&a, &a, Similarity { matched: 0, total: 100 }, 7000), Some(ConflictKind::ExactMatch));
    let c = route("PUT", "/users/:id", "a.js", 3);
    assert_eq!(classify_pair(&a, &c, Similarity::full(), 0), None);
}

#[test]
fn conflict_kind_labels() {
    assert_eq!(ConflictKind::ExactMatch.label(), "Exact Match");
    assert_eq!(ConflictKind::ParameterConflict.label(), "Parameter Conflict");
}
