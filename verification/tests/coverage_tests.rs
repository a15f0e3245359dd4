use crap4rust::coverage::{coverage_records, Export, ExportChunk, ExportFunction};
use crap4rust::coverage_index::{span_fits, CoverageIndex};
use crap4rust::coverage_record::CoverageRecord;
use crap4rust::source_function::SourceFunction;

fn record(path_key: &str, line: usize, covered_regions: u32, total_regions: u32) -> CoverageRecord {
    CoverageRecord { path_key: String::from(path_key), line, covered_regions, total_regions }
}

#[test]
fn from_records_skips_zero_duplicate_when_nonzero_exists() {
    let records = vec![record("src/lib.rs", 10, 1, 1), record("src/lib.rs", 10, 0, 1)];
    let index = CoverageIndex::from_records(records);
    let record = index.get("src/lib.rs", 10).unwrap();
    assert_eq!(record.covered_regions, 1);
    assert_eq!(record.total_regions, 1);
}

#[test]
fn from_records_skips_zero_duplicate_that_arrives_first() {
    let records = vec![record("src/lib.rs", 10, 0, 4), record("src/lib.rs", 10, 2, 3)];
    let index = CoverageIndex::from_records(records);
    let merged = index.get("src/lib.rs", 10).unwrap();
    assert_eq!(merged.covered_regions, 2);
    assert_eq!(merged.total_regions, 3);
}

#[test]
fn from_records_sums_covered_duplicates() {
    let records = vec![
        record("src/lib.rs", 10, 1, 2),
        record("src/lib.rs", 10, 0, 9),
        record("src/lib.rs", 10, 2, 3),
    ];
    let index = CoverageIndex::from_records(records);
    let merged = index.get("src/lib.rs", 10).unwrap();
    assert_eq!(merged.covered_regions, 3);
    assert_eq!(merged.total_regions, 5);
}

#[test]
fn from_records_sums_uncovered_duplicates() {
    let records = vec![record("src/lib.rs", 10, 0, 2), record("src/lib.rs", 10, 0, 3)];
    let index = CoverageIndex::from_records(records);
    let merged = index.get("src/lib.rs", 10).unwrap();
    assert_eq!(merged.covered_regions, 0);
    assert_eq!(merged.total_regions, 5);
}

#[test]
fn merge_does_not_depend_on_arrival_order() {
    let forward = vec![
        record("src/lib.rs", 10, 0, 4),
        record("src/lib.rs", 10, 3, 6),
        record("src/lib.rs", 20, 1, 1),
        record("src/lib.rs", 10, 1, 2),
    ];
    let mut backward = forward.clone();
    backward.reverse();
    let a = CoverageIndex::from_records(forward);
    let b = CoverageIndex::from_records(backward);
    for (key, line) in [("src/lib.rs", 10), ("src/lib.rs", 20)] {
        let x = a.get(key, line).unwrap();
        let y = b.get(key, line).unwrap();
        assert_eq!(x.covered_regions, y.covered_regions);
        assert_eq!(x.total_regions, y.total_regions);
    }
    assert_eq!(a.get("src/lib.rs", 10).unwrap().covered_regions, 4);
    assert_eq!(a.get("src/lib.rs", 10).unwrap().total_regions, 8);
}

#[test]
fn get_misses_other_keys() {
    let index = CoverageIndex::from_records(vec![record("src/lib.rs", 10, 1, 1)]);
    assert!(index.get("src/lib.rs", 11).is_none());
    assert!(index.get("src/main.rs", 10).is_none());
}

#[test]
fn try_from_records_refuses_counts_that_overflow() {
    let records = vec![
        record("src/lib.rs", 10, u32::MAX, u32::MAX),
        record("src/lib.rs", 10, 1, 1),
    ];
    assert!(CoverageIndex::try_from_records(records).is_none());
    let fine = vec![record("src/lib.rs", 10, u32::MAX - 1, u32::MAX - 1), record("src/lib.rs", 10, 1, 1)];
    let index = CoverageIndex::try_from_records(fine).unwrap();
    assert_eq!(index.get("src/lib.rs", 10).unwrap().covered_regions, u32::MAX);
}

#[test]
fn span_fits_detects_overflowing_sums() {
    let index = CoverageIndex::from_records(vec![
        record("src/lib.rs", 10, u32::MAX, 1),
        record("src/lib.rs", 11, 1, 1),
    ]);
    let function = SourceFunction {
        package_name: String::from("p"),
        name: String::from("f"),
        path_key: String::from("src/lib.rs"),
        relative_file: String::from("src/lib.rs"),
        line: 10,
        end_line: 12,
        complexity: 0,
    };
    assert!(!span_fits(&function, &index));
    let mut short = function.clone();
    short.end_line = 10;
    assert!(span_fits(&short, &index));
}

fn region(line: u64, count: u64) -> Vec<u64> {
    vec![line, 1, line + 6, 2, count, 0, 0, 0]
}

#[test]
fn coverage_records_count_covered_regions() {
    let export = Export {
        data: vec![ExportChunk {
            functions: vec![ExportFunction {
                filenames: vec![String::from("/work/src/lib.rs")],
                regions: vec![region(10, 3), region(12, 0), region(14, 1)],
            }],
        }],
    };
    let records = coverage_records(&export);
    assert_eq!(records.len(), 1);
    assert_eq!(records[0].path_key, "/work/src/lib.rs");
    assert_eq!(records[0].line, 10);
    assert_eq!(records[0].covered_regions, 2);
    assert_eq!(records[0].total_regions, 3);
}

#[test]
fn coverage_records_skip_functions_without_file_or_count() {
    let export = Export {
        data: vec![
            ExportChunk {
                functions: vec![
                    ExportFunction { filenames: vec![], regions: vec![region(1, 1)] },
                    ExportFunction { filenames: vec![String::from("a.rs")], regions: vec![] },
                    ExportFunction { filenames: vec![String::from("b.rs")], regions: vec![vec![1, 2, 3]] },
                ],
            },
            ExportChunk {
                functions: vec![ExportFunction {
                    filenames: vec![String::from("C:\\work\\c.rs")],
                    regions: vec![region(7, 0)],
                }],
            },
        ],
    };
    let records = coverage_records(&export);
    assert_eq!(records.len(), 1);
    assert_eq!(records[0].path_key, "C:/work/c.rs");
    assert_eq!(records[0].line, 7);
    assert_eq!(records[0].covered_regions, 0);
    assert_eq!(records[0].total_regions, 1);
}

#[test]
fn lookup_after_indexing_is_stable_and_keyed() {
    let index = CoverageIndex::from_records(vec![record("src/lib.rs", 10, 0, 2), record("src/lib.rs", 10, 1, 3)]);
    let first = index.get("src/lib.rs", 10).unwrap();
    let again = index.get("src/lib.rs", 10).unwrap();
    assert_eq!(first.path_key, "src/lib.rs");
    assert_eq!(first.line, 10);
    assert_eq!((first.covered_regions, first.total_regions), (again.covered_regions, again.total_regions));
    assert_eq!((first.covered_regions, first.total_regions), (1, 3));
}
