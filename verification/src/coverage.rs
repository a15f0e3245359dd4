//! Coverage records read from a `cargo llvm-cov --json` export.
use vstd::prelude::*;

use crate::coverage_record::CoverageRecord;
use crate::file_walker::{normalize_path, slashed};

verus! {

/// One function of the export: the files it spans and its regions, each
/// region a list of numbers whose first is the start line and whose fifth is
/// the execution count.
#[derive(Debug)]
pub struct ExportFunction {
    pub filenames: Vec<String>,
    pub regions: Vec<Vec<u64>>,
}

/// One chunk of the export's `data` array.
#[derive(Debug)]
pub struct ExportChunk {
    pub functions: Vec<ExportFunction>,
}

/// A coverage export, with each file name already canonicalised by the
/// caller (canonicalising reads the file system).
#[derive(Debug)]
pub struct Export {
    pub data: Vec<ExportChunk>,
}

/// A region counts as covered when it has an execution count above zero.
pub open spec fn region_covered(region: Seq<u64>) -> bool {
    region.len() > 4 && region[4] > 0
}

/// The number of covered regions.
pub open spec fn covered_region_count(regions: Seq<Vec<u64>>) -> nat
    decreases regions.len(),
{
    if regions.len() == 0 {
        0
    } else {
        covered_region_count(regions.drop_last()) + if region_covered(regions.last()@) {
            1nat
        } else {
            0nat
        }
    }
}

/// The fields of a record as plain values.
pub open spec fn record_view(r: CoverageRecord) -> (Seq<char>, usize, u32, u32) {
    (r.path_key@, r.line, r.covered_regions, r.total_regions)
}

/// The record an exported function yields: none where it names no file, has
/// no region, or its first region is too short to hold a count; otherwise
/// keyed by its first file and the start line of its first region.
pub open spec fn function_record(f: ExportFunction) -> Option<(Seq<char>, usize, u32, u32)> {
    if f.filenames@.len() == 0 || f.regions@.len() == 0 || f.regions@[0]@.len() < 5 {
        None
    } else {
        Some(
            (
                slashed(f.filenames@[0]@),
                f.regions@[0]@[0] as usize,
                covered_region_count(f.regions@) as u32,
                f.regions@.len() as u32,
            ),
        )
    }
}

/// The records of a chunk's functions, in order.
pub open spec fn functions_records(fs: Seq<ExportFunction>) -> Seq<(Seq<char>, usize, u32, u32)>
    decreases fs.len(),
{
    if fs.len() == 0 {
        Seq::empty()
    } else {
        functions_records(fs.drop_last()) + match function_record(fs.last()) {
            Some(r) => seq![r],
            None => Seq::empty(),
        }
    }
}

/// The records of all chunks, in order.
pub open spec fn export_records(chunks: Seq<ExportChunk>) -> Seq<(Seq<char>, usize, u32, u32)>
    decreases chunks.len(),
{
    if chunks.len() == 0 {
        Seq::empty()
    } else {
        export_records(chunks.drop_last()) + functions_records(chunks.last().functions@)
    }
}

fn count_covered_regions(regions: &Vec<Vec<u64>>) -> (count: usize)
    ensures
        count as nat == covered_region_count(regions@),
{
    let mut count: usize = 0;
    let mut i: usize = 0;
    while i < regions.len()
        invariant
            i <= regions@.len(),
            count <= i,
            count as nat == covered_region_count(regions@.take(i as int)),
        decreases regions@.len() - i,
    {
        assert(regions@.take(i + 1).drop_last() =~= regions@.take(i as int));
        let region = &regions[i];
        if region.len() > 4 && region[4] > 0 {
            count += 1;
        }
        i += 1;
    }
    assert(regions@.take(regions@.len() as int) =~= regions@);
    count
}

/// The record of one exported function, if it yields one.
fn record_of(f: &ExportFunction) -> (r: Option<CoverageRecord>)
    ensures
        match r {
            Some(rec) => function_record(*f) == Some(record_view(rec)),
            None => function_record(*f) is None,
        },
{
    if f.filenames.len() == 0 || f.regions.len() == 0 || f.regions[0].len() < 5 {
        return None;
    }
    let covered = count_covered_regions(&f.regions);
    Some(
        CoverageRecord {
            path_key: normalize_path(f.filenames[0].as_str()),
            line: f.regions[0][0] as usize,
            covered_regions: covered as u32,
            total_regions: f.regions.len() as u32,
        },
    )
}

/// The coverage records of an export: one per function that names a file
/// and whose first region holds a count, in the order of the export.
pub fn coverage_records(export: &Export) -> (records: Vec<CoverageRecord>)
    ensures
        records@.map_values(|r: CoverageRecord| record_view(r)) == export_records(export.data@),
{
    let mut records: Vec<CoverageRecord> = Vec::new();
    let mut c: usize = 0;
    while c < export.data.len()
        invariant
            c <= export.data@.len(),
            records@.map_values(|r: CoverageRecord| record_view(r)) == export_records(
                export.data@.take(c as int),
            ),
        decreases export.data@.len() - c,
    {
        let chunk = &export.data[c];
        let ghost before = records@.map_values(|r: CoverageRecord| record_view(r));
        let mut k: usize = 0;
        while k < chunk.functions.len()
            invariant
                k <= chunk.functions@.len(),
                records@.map_values(|r: CoverageRecord| record_view(r)) == before
                    + functions_records(chunk.functions@.take(k as int)),
            decreases chunk.functions@.len() - k,
        {
            let ghost fs = chunk.functions@.take(k + 1);
            assert(fs.drop_last() =~= chunk.functions@.take(k as int));
            let ghost prior = records@;
            match record_of(&chunk.functions[k]) {
                Some(r) => {
                    records.push(r);
                    assert(records@.map_values(|r: CoverageRecord| record_view(r)) =~= prior.map_values(
                        |r: CoverageRecord| record_view(r),
                    ).push(record_view(r)));
                },
                None => {},
            }
            assert(records@.map_values(|r: CoverageRecord| record_view(r)) =~= before
                + functions_records(fs));
            k += 1;
        }
        assert(chunk.functions@.take(chunk.functions@.len() as int) =~= chunk.functions@);
        assert(export.data@.take(c + 1).drop_last() =~= export.data@.take(c as int));
        c += 1;
    }
    assert(export.data@.take(export.data@.len() as int) =~= export.data@);
    records
}

} // verus!
