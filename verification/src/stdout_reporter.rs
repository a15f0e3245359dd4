//! The reporter that prints to standard output.
use vstd::prelude::*;

verus! {

/// Prints a project report to standard output, as a table or as JSON.
#[derive(Debug, Clone, Copy, Default)]
pub struct StdoutReporter;

impl StdoutReporter {
    pub fn new() -> (reporter: Self) {
        StdoutReporter
    }
}

} // verus!
