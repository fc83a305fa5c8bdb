use vstd::prelude::*;

verus! {

/// The command line: where the database lives, if not in the working directory.
pub struct Cli {
    pub db_path: Option<String>,
}

/// The settings kept in the configuration file.
pub struct AppConfig {
    pub apijobs_key: String,
}

} // verus!
