//! Configuration paths: the well-known locations under the
//! application's directory, derived from a base directory string that
//! the surrounding program supplies.

use vstd::prelude::*;

verus! {

/// The configuration: where the snapshot database lives.
pub struct Config {
    pub db_path: String,
}

impl Config {
    /// The default database path under the application directory.
    pub fn default_db_path(base_dir: &str) -> (p: String)
        ensures
            p@ == base_dir@ + "/default.ukweli"@,
    {
        join_path(base_dir, "/default.ukweli")
    }

    /// The per-user key files directory.
    pub fn users_dir(base_dir: &str) -> (p: String)
        ensures
            p@ == base_dir@ + "/users"@,
    {
        join_path(base_dir, "/users")
    }

    /// The stored workflow definitions directory.
    pub fn workflows_dir(base_dir: &str) -> (p: String)
        ensures
            p@ == base_dir@ + "/workflows"@,
    {
        join_path(base_dir, "/workflows")
    }

    /// The configuration file path.
    pub fn config_file(base_dir: &str) -> (p: String)
        ensures
            p@ == base_dir@ + "/config.json"@,
    {
        join_path(base_dir, "/config.json")
    }
}

/// Concatenates a base directory and a suffix.
fn join_path(base: &str, suffix: &str) -> (p: String)
    ensures
        p@ == base@ + suffix@,
{
    let mut p = String::from_str(base);
    p.append(suffix);
    p
}

} // verus!
