//! Settings for one stage-and-commit pass.

use vstd::prelude::*;
use vstd::string::StringExecFns;

verus! {

/// Settings for one run: where the repository is, whether to push after
/// committing, the commit-message template, and the smallest bucket that
/// may become a whole-directory commit.
#[derive(Debug)]
pub struct Config {
    pub repo_path: String,
    pub push_by_default: bool,
    pub commit_message_template: String,
    pub min_files_for_directory_commit: usize,
}

impl Default for Config {
    /// The stock configuration: the current directory, push on, the fixed
    /// template, directory commits from two files up.
    fn default() -> (c: Config)
        ensures
            c.repo_path@ == "."@,
            c.push_by_default == true,
            c.commit_message_template@ == "{change_type}: {name}"@,
            c.min_files_for_directory_commit == 2,
    {
        Config {
            repo_path: String::from_str("."),
            push_by_default: true,
            commit_message_template: String::from_str("{change_type}: {name}"),
            min_files_for_directory_commit: 2,
        }
    }
}

} // verus!
