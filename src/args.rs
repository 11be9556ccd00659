use vstd::prelude::*;

verus! {

/// The command line: paths to walk, where to write the output, and the
/// ignore patterns.
pub struct CliArgs {
    /// Files or directories to concatenate.
    pub paths: Vec<String>,
    /// File to save the output to; standard output when absent.
    pub output: Option<String>,
    /// Ignore patterns, added to the built-in ones.
    pub ignore: Vec<String>,
}

} // verus!
