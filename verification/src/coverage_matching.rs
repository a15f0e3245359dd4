//! Pairing discovered functions with their coverage, and the reasons a run
//! stops before any function is scored.
use vstd::prelude::*;

use crate::coverage_index::{
    match_function_coverage, span_covered, span_match, span_matched, span_total, CoverageIndex,
};
use crate::coverage_record::CoverageRecord;
use crate::source_function::SourceFunction;

verus! {

/// Why a run stops before scoring.
#[derive(Debug, Clone, Copy, PartialEq, Eq, Structural)]
pub enum RunError {
    /// The selected packages have no functions.
    NoFunctions,
    /// The coverage export holds no function records.
    NoCoverageRecords,
    /// No coverage record falls within any discovered function.
    NoMatches,
}

/// The message the command line prints for a run error.
pub open spec fn run_error_message(e: RunError) -> Seq<char> {
    match e {
        RunError::NoFunctions => "no Rust functions were discovered in the selected packages"@,
        RunError::NoCoverageRecords => "coverage file did not contain any function records"@,
        RunError::NoMatches => "coverage data could not be matched to any discovered function by file path and line"@,
    }
}

impl RunError {
    /// The message the command line prints for this error.
    pub fn message(&self) -> (text: String)
        ensures
            text@ == run_error_message(*self),
    {
        match self {
            RunError::NoFunctions => "no Rust functions were discovered in the selected packages".to_owned(),
            RunError::NoCoverageRecords => "coverage file did not contain any function records".to_owned(),
            RunError::NoMatches => "coverage data could not be matched to any discovered function by file path and line".to_owned(),
        }
    }
}

/// Every function's span sums to counts that fit in a `u32`.
pub open spec fn spans_fit(functions: Seq<SourceFunction>, entries: Seq<CoverageRecord>) -> bool {
    forall|i: int|
        0 <= i < functions.len() ==> span_covered(entries, #[trigger] functions[i]) <= u32::MAX
            && span_total(entries, functions[i]) <= u32::MAX
}

/// Some function has an entry within it.
pub open spec fn any_matched(functions: Seq<SourceFunction>, entries: Seq<CoverageRecord>) -> bool {
    exists|i: int| 0 <= i < functions.len() && span_matched(entries, #[trigger] functions[i])
}

/// The coverage of each function, in order; `NoMatches` where no function
/// has any coverage entry within it.
pub fn match_coverage(functions: &[SourceFunction], coverage_index: &CoverageIndex) -> (matched:
    Result<Vec<Option<CoverageRecord>>, RunError>)
    requires
        spans_fit(functions@, coverage_index@),
    ensures
        matched is Err <==> !any_matched(functions@, coverage_index@),
        matched matches Err(e) ==> e == RunError::NoMatches,
        matched matches Ok(v) ==> {
            &&& v@.len() == functions@.len()
            &&& forall|i: int|
                0 <= i < v@.len() ==> span_match(
                    #[trigger] v@[i],
                    coverage_index@,
                    functions@[i],
                )
        },
{
    let mut matched: Vec<Option<CoverageRecord>> = Vec::new();
    let mut any = false;
    let mut i: usize = 0;
    while i < functions.len()
        invariant
            spans_fit(functions@, coverage_index@),
            i <= functions@.len(),
            matched@.len() == i,
            forall|t: int|
                0 <= t < i ==> span_match(#[trigger] matched@[t], coverage_index@, functions@[t]),
            any == exists|t: int|
                0 <= t < i && span_matched(coverage_index@, #[trigger] functions@[t]),
        decreases functions@.len() - i,
    {
        let one = match_function_coverage(&functions[i], coverage_index);
        if one.is_some() {
            any = true;
        }
        matched.push(one);
        assert(span_match(matched@[i as int], coverage_index@, functions@[i as int]));
        i += 1;
    }
    if !any {
        return Err(RunError::NoMatches);
    }
    Ok(matched)
}

} // verus!
