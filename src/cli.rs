use vstd::prelude::*;

verus! {

/// What an analysis run needs: where to look, what to skip, which files to
/// read, and the similarity above which parameterized paths conflict.
pub struct AnalysisConfig {
    pub project_directory: String,
    pub excluded_dirs: Vec<String>,
    pub file_extensions: Vec<String>,
    /// In basis points, hundredths of a percent: 7000 is 70%.
    pub similarity_threshold_bp: u32,
}

/// The threshold that report generation uses, 70%.
pub const REPORT_THRESHOLD_BP: u32 = 7000;

/// The commands of the tool, with their arguments.
pub enum Commands {
    /// Analyze the routes of a project and print a summary.
    Analyze {
        project_directory: String,
        exclude: Vec<String>,
        extensions: Vec<String>,
        /// In basis points.
        similarity_threshold_bp: u32,
    },
    /// Write a configuration file with the defaults.
    Init,
    /// Analyze a project and write a report in a given format.
    Report {
        project_directory: String,
        format: String,
        output: Option<String>,
        exclude: Vec<String>,
        extensions: Vec<String>,
    },
}

/// The parsed command line.
pub struct CliArgs {
    pub command: Commands,
}

fn copy_strings(v: &Vec<String>) -> (r: Vec<String>)
    ensures
        r@ == v@,
{
    let mut r: Vec<String> = Vec::new();
    let mut i: usize = 0;
    while i < v.len()
        invariant
            i <= v@.len(),
            r@ == v@.take(i as int),
        decreases v@.len() - i,
    {
        r.push(v[i].clone());
        proof {
            assert(r@ =~= v@.take(i + 1));
        }
        i = i + 1;
    }
    assert(r@ =~= v@);
    r
}

/// The configuration of an `analyze` command.
pub fn create_analysis_config_from_analyze(
    project_directory: &str,
    exclude: &Vec<String>,
    extensions: &Vec<String>,
    similarity_threshold_bp: u32,
) -> (r: AnalysisConfig)
    ensures
        r.project_directory@ == project_directory@,
        r.excluded_dirs@ == exclude@,
        r.file_extensions@ == extensions@,
        r.similarity_threshold_bp == similarity_threshold_bp,
{
    AnalysisConfig {
        project_directory: String::from_str(project_directory),
        excluded_dirs: copy_strings(exclude),
        file_extensions: copy_strings(extensions),
        similarity_threshold_bp,
    }
}

/// The configuration of a `report` command, which always uses the 70%
/// threshold.
pub fn create_analysis_config_from_report(
    project_directory: &str,
    exclude: &Vec<String>,
    extensions: &Vec<String>,
) -> (r: AnalysisConfig)
    ensures
        r.project_directory@ == project_directory@,
        r.excluded_dirs@ == exclude@,
        r.file_extensions@ == extensions@,
        r.similarity_threshold_bp == REPORT_THRESHOLD_BP,
{
    create_analysis_config_from_analyze(project_directory, exclude, extensions, REPORT_THRESHOLD_BP)
}

/// The configuration that an `analyze` or `report` command asks for; `init`
/// needs none.
pub fn get_analysis_config(args: &CliArgs) -> (r: AnalysisConfig)
    requires
        !(args.command is Init),
    ensures
        match args.command {
            Commands::Analyze { project_directory, exclude, extensions, similarity_threshold_bp } => {
                &&& r.project_directory@ == project_directory@
                &&& r.excluded_dirs@ == exclude@
                &&& r.file_extensions@ == extensions@
                &&& r.similarity_threshold_bp == similarity_threshold_bp
            },
            Commands::Report { project_directory, exclude, extensions, .. } => {
                &&& r.project_directory@ == project_directory@
                &&& r.excluded_dirs@ == exclude@
                &&& r.file_extensions@ == extensions@
                &&& r.similarity_threshold_bp == REPORT_THRESHOLD_BP
            },
            Commands::Init => false,
        },
{
    match &args.command {
        Commands::Analyze { project_directory, exclude, extensions, similarity_threshold_bp } => {
            create_analysis_config_from_analyze(
                project_directory.as_str(),
                exclude,
                extensions,
                *similarity_threshold_bp,
            )
        },
        Commands::Report { project_directory, exclude, extensions, .. } => {
            create_analysis_config_from_report(project_directory.as_str(), exclude, extensions)
        },
        Commands::Init => {
            proof {
                assert(false);
            }
            create_analysis_config_from_report("", &Vec::new(), &Vec::new())
        },
    }
}

/// Relies on `std::path::Path::is_dir`: whether the file system holds a
/// directory at `path` (following symbolic links; errors count as no). The
/// answer depends on the disk, so nothing is promised.
#[verifier::external_body]
fn path_is_dir(path: &str) -> (r: bool) {
    std::path::Path::new(path).is_dir()
}

/// The message for a project path that is not an existing directory.
pub open spec fn bad_root_message(path: Seq<char>) -> Seq<char> {
    "Error: Project path '"@ + path + "' does not exist or is not a directory"@
}

/// The outcome of validating `path`, given whether it is an existing
/// directory.
pub fn path_check(path: &str, is_dir: bool) -> (r: Result<(), String>)
    ensures
        is_dir ==> r is Ok,
        !is_dir ==> (r matches Err(m) && m@ == bad_root_message(path@)),
{
    if is_dir {
        Ok(())
    } else {
        let mut m = String::from_str("Error: Project path '");
        m.append(path);
        m.append("' does not exist or is not a directory");
        Err(m)
    }
}

/// Checks that the project root is an existing directory; the error names
/// the path. A missing path and a regular file are both refused.
pub fn validate_project_path(path: &str) -> (r: Result<(), String>)
    ensures
        match r {
            Ok(()) => true,
            Err(m) => m@ == bad_root_message(path@),
        },
{
    let is_dir = path_is_dir(path);
    path_check(path, is_dir)
}

} // verus!
