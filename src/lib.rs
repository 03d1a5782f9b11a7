//! Static detection of conflicting HTTP route declarations.
//!
//! The pipeline runs in one direction: candidate files are chosen by the
//! walker rules, routes are extracted from each file's text, pairs of routes
//! are classified as conflicts, and everything is gathered into a report.
pub mod cli;
pub mod config;
pub mod conflict_analyzer;
pub mod models;
pub mod report;
pub mod route_extractor;
pub mod similarity;
pub mod walker;

pub use cli::{
    create_analysis_config_from_analyze, create_analysis_config_from_report, get_analysis_config,
    path_check, validate_project_path, AnalysisConfig, CliArgs, Commands,
};
pub use config::Config;
pub use conflict_analyzer::{check_route_conflicts, classify_pair};
pub use models::{ConflictKind, Route, RouteConflict, RouteView, Similarity};
pub use report::{create_analysis_report, AnalysisReport, MatrixEntry};
pub use route_extractor::{extract_all_routes, extract_routes_from_file, SourceFile, Verb};
pub use similarity::{calculate_path_similarity, DiffTag};
pub use walker::{file_extension, keep_entry, keep_walk_entry, wants_file};
