//! The command line: the paths to scan, and whether to descend into
//! sub-directories.
use vstd::prelude::*;

verus! {

/// The command line: one or more paths, and `--no-recursive`.
#[derive(Debug, Clone)]
pub struct Cli {
    pub paths: Vec<String>,
    pub no_recursive: bool,
}

impl Cli {
    /// Whether directories are scanned with their sub-directories.
    pub fn recursive(&self) -> (r: bool)
        ensures
            r == !self.no_recursive,
    {
        !self.no_recursive
    }
}

} // verus!
