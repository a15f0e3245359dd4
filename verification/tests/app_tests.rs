use crap4rust::coverage_index::{match_function_coverage, CoverageIndex};
use crap4rust::coverage_matching::{match_coverage, RunError};
use crap4rust::coverage_record::CoverageRecord;
use crap4rust::source_function::SourceFunction;

fn record(path_key: &str, line: usize, covered_regions: u32, total_regions: u32) -> CoverageRecord {
    CoverageRecord { path_key: String::from(path_key), line, covered_regions, total_regions }
}

fn function_foo() -> SourceFunction {
    SourceFunction {
        package_name: String::from("test"),
        name: String::from("foo"),
        path_key: String::from("src/lib.rs"),
        relative_file: String::from("src/lib.rs"),
        line: 10,
        end_line: 20,
        complexity: 1,
    }
}

#[test]
fn app_match_function_coverage_exact_match_returns_record() {
    let index = CoverageIndex::from_records(vec![record("src/lib.rs", 10, 3, 5)]);
    let function = function_foo();
    let result = match_function_coverage(&function, &index);
    assert!(result.is_some());
    assert_eq!(result.unwrap().covered_regions, 3);
}

#[test]
fn app_match_function_coverage_fuzzy_match_within_span_returns_nearest() {
    let index = CoverageIndex::from_records(vec![record("src/lib.rs", 12, 7, 10)]);
    let function = function_foo();
    let result = match_function_coverage(&function, &index);
    assert!(result.is_some());
    assert_eq!(result.unwrap().covered_regions, 7);
}

#[test]
fn app_match_function_coverage_no_match_returns_none() {
    let index = CoverageIndex::from_records(vec![record("src/other.rs", 10, 1, 1)]);
    let function = function_foo();
    assert!(match_function_coverage(&function, &index).is_none());
}

#[test]
fn match_reports_at_the_function_line_with_summed_counts() {
    let index = CoverageIndex::from_records(vec![
        record("src/lib.rs", 12, 2, 4),
        record("src/lib.rs", 18, 1, 3),
        record("src/lib.rs", 21, 5, 5),
        record("src/other.rs", 12, 9, 9),
    ]);
    let function = function_foo();
    let matched = match_function_coverage(&function, &index).unwrap();
    assert_eq!(matched.path_key, "src/lib.rs");
    assert_eq!(matched.line, 10);
    assert_eq!(matched.covered_regions, 3);
    assert_eq!(matched.total_regions, 7);
}

#[test]
fn match_coverage_pairs_each_function_in_order() {
    let index = CoverageIndex::from_records(vec![record("src/lib.rs", 10, 3, 5)]);
    let mut other = function_foo();
    other.path_key = String::from("src/other.rs");
    let functions = vec![function_foo(), other];
    let matched = match_coverage(&functions, &index).unwrap();
    assert_eq!(matched.len(), 2);
    assert_eq!(matched[0].as_ref().unwrap().covered_regions, 3);
    assert!(matched[1].is_none());
}

#[test]
fn match_coverage_without_any_match_is_an_error() {
    let index = CoverageIndex::from_records(vec![record("src/other.rs", 10, 1, 1)]);
    let functions = vec![function_foo()];
    let result = match_coverage(&functions, &index);
    assert_eq!(result.unwrap_err(), RunError::NoMatches);
    assert_eq!(
        RunError::NoMatches.message(),
        "coverage data could not be matched to any discovered function by file path and line"
    );
}

#[test]
fn run_error_messages() {
    assert_eq!(
        RunError::NoFunctions.message(),
        "no Rust functions were discovered in the selected packages"
    );
    assert_eq!(
        RunError::NoCoverageRecords.message(),
        "coverage file did not contain any function records"
    );
}
