use insidious::{
    create_analysis_config_from_report, create_analysis_report, file_extension, get_analysis_config, keep_entry,
    path_check, validate_project_path, wants_file, CliArgs, Commands, Config, ConflictKind, Route,
    RouteConflict, Similarity,
};

fn names(v: &[&str]) -> Vec<String> {
    v.iter().map(|s| s.to_string()).collect()
}

#[test]
fn excluded_directory_is_skipped_by_exact_name() {
    let excluded = names(&["node_modules", "dist"]);
    assert!(!keep_entry("node_modules", true, &excluded));
    assert!(keep_entry("node_modules_backup", true, &excluded));
    assert!(keep_entry("my_node_modules", true, &excluded));
    assert!(keep_entry("node_modules", false, &excluded));
    assert!(keep_entry("src", true, &excluded));
}

#[test]
fn hidden_entries_are_skipped() {
    let excluded = names(&[]);
    assert!(!keep_entry(".git", true, &excluded));
    assert!(!keep_entry(".env.js", false, &excluded));
    assert!(keep_entry("a.js", false, &excluded));
}

#[test]
fn extensions_follow_the_last_dot() {
    assert_eq!(file_extension("a.js"), Some("js".to_string()));
    assert_eq!(file_extension("a.test.ts"), Some("ts".to_string()));
    assert_eq!(file_extension("a."), Some("".to_string()));
    assert_eq!(file_extension("Makefile"), None);
    assert_eq!(file_extension(".hidden"), None);
    assert_eq!(file_extension(".."), None);
}

#[test]
fn wanted_files_match_extension_exactly() {
    let exts = names(&["js", "ts"]);
    assert!(wants_file("server.js", true, &exts));
    assert!(wants_file("server.ts", true, &exts));
    assert!(!wants_file("server.JS", true, &exts));
    assert!(!wants_file("server.jsx", true, &exts));
    assert!(!wants_file("server.js", false, &exts));
}

#[test]
fn default_config_values() {
    let c = Config::default();
    assert_eq!(c.excluded_dirs, names(&["node_modules", "dist", "build"]));
    assert_eq!(c.file_extensions, names(&["js", "ts"]));
    assert_eq!(c.similarity_threshold_bp, 7000);
}

#[test]
fn missing_project_path_is_an_error() {
    assert_eq!(
        validate_project_path("/no/such/dir/for/route/analysis"),
        Err("Error: Project path '/no/such/dir/for/route/analysis' does not exist or is not a directory".to_string())
    );
    assert_eq!(path_check("x", true), Ok(()));
    assert_eq!(
        path_check("x", false),
        Err("Error: Project path 'x' does not exist or is not a directory".to_string())
    );
}

#[test]
fn regular_file_is_not_a_project_root() {
    assert_eq!(
        validate_project_path("Cargo.toml"),
        Err("Error: Project path 'Cargo.toml' does not exist or is not a directory".to_string())
    );
    assert_eq!(validate_project_path("src"), Ok(()));
}

#[test]
fn config_from_commands() {
    let args = CliArgs {
        command: Commands::Analyze {
            project_directory: "proj".to_string(),
            exclude: names(&["node_modules"]),
            extensions: names(&["js"]),
            similarity_threshold_bp: 8000,
        },
    };
    let c = get_analysis_config(&args);
    assert_eq!(c.project_directory, "proj");
    assert_eq!(c.excluded_dirs, names(&["node_modules"]));
    assert_eq!(c.file_extensions, names(&["js"]));
    assert_eq!(c.similarity_threshold_bp, 8000);
    let args = CliArgs {
        command: Commands::Report {
            project_directory: "web".to_string(),
            format: "json".to_string(),
            output: None,
            exclude: names(&["dist"]),
            extensions: names(&["ts"]),
        },
    };
    let c = get_analysis_config(&args);
    assert_eq!(c.project_directory, "web");
    assert_eq!(c.similarity_threshold_bp, 7000);
    let c = create_analysis_config_from_report("api", &names(&[]), &names(&["js"]));
    assert_eq!(c.similarity_threshold_bp, 7000);
}

fn route(method: &str, path: &str, line: usize) -> Route {
    Route { path: path.to_string(), method: method.to_string(), file_path: "f.js".to_string(), line_number: line }
}

#[test]
fn report_counts_and_matrix() {
    let routes = vec![route("GET", "/a", 1), route("GET", "/a", 2), route("POST", "/ab", 3)];
    let conflicts = vec![RouteConflict {
        route1: routes[0].clone(),
        route2: routes[1].clone(),
        similarity: Similarity::full(),
        conflict_type: ConflictKind::ExactMatch,
    }];
    let report = create_analysis_report(routes, conflicts);
    assert_eq!(report.total_routes, 3);
    assert_eq!(report.conflict_count, 1);
    assert_eq!(report.routes.len(), 3);
    let keys: Vec<(&str, &str)> =
        report.similarity_matrix.iter().map(|e| (e.path_a.as_str(), e.path_b.as_str())).collect();
    assert_eq!(keys, vec![("/a", "/ab"), ("/ab", "/a")]);
    assert_eq!(report.similarity_matrix[0].similarity, Similarity { matched: 2, total: 3 });
    assert_eq!(report.similarity_matrix[1].similarity, Similarity { matched: 2, total: 3 });
}

#[test]
fn report_of_nothing_is_empty() {
    let report = create_analysis_report(vec![], vec![]);
    assert_eq!(report.total_routes, 0);
    assert_eq!(report.conflict_count, 0);
    assert!(report.similarity_matrix.is_empty());
}
