//! What one run is asked to do.
use vstd::prelude::*;

verus! {

/// Where lines are read from and written to, and whether counts are shown.
///
/// `in_file` is a path, or `-` for standard input; `out_file` is a path to
/// create or truncate, or `None` for standard output.
#[derive(Debug)]
pub struct Config {
    pub in_file: String,
    pub out_file: Option<String>,
    pub count: bool,
}

impl Config {
    /// A configuration from its three parts.
    pub fn new(in_file: String, out_file: Option<String>, count: bool) -> (r: Config)
        ensures
            r.in_file == in_file,
            r.out_file == out_file,
            r.count == count,
    {
        Config { in_file, out_file, count }
    }
}

} // verus!
