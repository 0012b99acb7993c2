//! User configuration.

use vstd::prelude::*;
use std::path::PathBuf;

verus! {

#[verifier::external_type_specification]
#[verifier::external_body]
pub struct ExPathBuf(PathBuf);

/// Backup folders kept when the configuration names no count.
pub const DEFAULT_KEEP_NUM: usize = 100;

#[derive(Debug)]
pub struct Config {
    /// Number of backup folders to keep.
    pub keep: Option<usize>,
    /// The task data directory; when absent, the task program's default.
    pub task_dir: Option<PathBuf>,
}

impl Default for Config {
    fn default() -> (r: Self)
        ensures
            r.keep == Some(DEFAULT_KEEP_NUM),
            r.task_dir is None,
    {
        Config { keep: Some(DEFAULT_KEEP_NUM), task_dir: None }
    }
}

impl Config {
    /// The number of backup folders to keep.
    pub fn keep_count(&self) -> (r: usize)
        ensures
            r == match self.keep {
                Some(n) => n,
                None => DEFAULT_KEEP_NUM,
            },
    {
        match self.keep {
            Some(n) => n,
            None => DEFAULT_KEEP_NUM,
        }
    }
}

} // verus!
