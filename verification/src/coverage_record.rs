//! One function's coverage as the coverage export reports it.
use vstd::prelude::*;

verus! {

/// The regions of one function that the coverage run counted, keyed by the
/// normalised path of its file and the line where it starts.
#[derive(Debug, Clone)]
pub struct CoverageRecord {
    pub path_key: String,
    pub line: usize,
    pub covered_regions: u32,
    pub total_regions: u32,
}

/// Whether a record is filed under the key `(path_key, line)`.
pub open spec fn has_key(r: CoverageRecord, path_key: Seq<char>, line: usize) -> bool {
    r.path_key@ == path_key && r.line == line
}

} // verus!
