use vstd::prelude::*;

verus! {

/// The settings that a configuration file holds.
pub struct Config {
    pub excluded_dirs: Vec<String>,
    pub file_extensions: Vec<String>,
    /// In basis points, hundredths of a percent.
    pub similarity_threshold_bp: u32,
}

impl Default for Config {
    /// Skip `node_modules`, `dist` and `build`; read `js` and `ts` files;
    /// flag similarities above 70%.
    fn default() -> (r: Self)
        ensures
            r.excluded_dirs@.len() == 3,
            r.excluded_dirs@[0]@ == "node_modules"@,
            r.excluded_dirs@[1]@ == "dist"@,
            r.excluded_dirs@[2]@ == "build"@,
            r.file_extensions@.len() == 2,
            r.file_extensions@[0]@ == "js"@,
            r.file_extensions@[1]@ == "ts"@,
            r.similarity_threshold_bp == 7000,
    {
        Config {
            excluded_dirs: vec![
                String::from_str("node_modules"),
                String::from_str("dist"),
                String::from_str("build"),
            ],
            file_extensions: vec![String::from_str("js"), String::from_str("ts")],
            similarity_threshold_bp: 7000,
        }
    }
}

} // verus!
