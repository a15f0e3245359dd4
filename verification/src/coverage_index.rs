//! Coverage records indexed by file and line, with duplicates merged.
//!
//! A coverage export may report one function several times under the same
//! file and line (monomorphised copies, for instance). Copies that no test
//! reached are "ghosts": where some copy under a key was covered, the ghosts
//! are dropped and only the covered copies are summed; where none was, all of
//! them are summed. The result does not depend on the order of the records.
use vstd::prelude::*;

use crate::coverage_record::{has_key, CoverageRecord};
use crate::source_function::SourceFunction;
use crate::text::str_eq;

verus! {

/// The covered regions of all records under a key.
pub open spec fn covered_sum(s: Seq<CoverageRecord>, path_key: Seq<char>, line: usize) -> nat
    decreases s.len(),
{
    if s.len() == 0 {
        0
    } else {
        covered_sum(s.drop_last(), path_key, line) + if has_key(s.last(), path_key, line) {
            s.last().covered_regions as nat
        } else {
            0
        }
    }
}

/// The regions of the records under a key that have at least one covered region.
pub open spec fn covered_records_total(
    s: Seq<CoverageRecord>,
    path_key: Seq<char>,
    line: usize,
) -> nat
    decreases s.len(),
{
    if s.len() == 0 {
        0
    } else {
        covered_records_total(s.drop_last(), path_key, line) + if has_key(s.last(), path_key, line)
            && s.last().covered_regions > 0 {
            s.last().total_regions as nat
        } else {
            0
        }
    }
}

/// The regions of all records under a key.
pub open spec fn all_records_total(s: Seq<CoverageRecord>, path_key: Seq<char>, line: usize) -> nat
    decreases s.len(),
{
    if s.len() == 0 {
        0
    } else {
        all_records_total(s.drop_last(), path_key, line) + if has_key(s.last(), path_key, line) {
            s.last().total_regions as nat
        } else {
            0
        }
    }
}

/// The total regions that the merged entry for a key carries: those of the
/// covered records where there is one, else those of all records.
pub open spec fn merged_total(s: Seq<CoverageRecord>, path_key: Seq<char>, line: usize) -> nat {
    if covered_sum(s, path_key, line) > 0 {
        covered_records_total(s, path_key, line)
    } else {
        all_records_total(s, path_key, line)
    }
}

/// Whether some record is filed under the key.
pub open spec fn key_occurs(s: Seq<CoverageRecord>, path_key: Seq<char>, line: usize) -> bool {
    exists|i: int| 0 <= i < s.len() && has_key(#[trigger] s[i], path_key, line)
}

/// Whether merging the records one after the other keeps every count within
/// a `u32`.
pub open spec fn merges_fit(s: Seq<CoverageRecord>) -> bool {
    forall|i: int| 0 < i <= s.len() ==> #[trigger] merge_fits_at(s, i)
}

/// Whether, once the first `i` records are merged, the counts under the key
/// of the `i`-th fit in a `u32`.
pub open spec fn merge_fits_at(s: Seq<CoverageRecord>, i: int) -> bool {
    &&& covered_sum(s.take(i), s[i - 1].path_key@, s[i - 1].line) <= u32::MAX
    &&& merged_total(s.take(i), s[i - 1].path_key@, s[i - 1].line) <= u32::MAX
}

/// No two entries share a key.
pub open spec fn keys_unique(entries: Seq<CoverageRecord>) -> bool {
    forall|i: int, j: int|
        0 <= i < entries.len() && 0 <= j < entries.len() && i != j ==> !has_key(
            #[trigger] entries[i],
            (#[trigger] entries[j]).path_key@,
            entries[j].line,
        )
}

/// The entries are exactly the merged records: one per key that occurs,
/// carrying the merged counts.
pub open spec fn merges_records(entries: Seq<CoverageRecord>, records: Seq<CoverageRecord>) -> bool {
    &&& keys_unique(entries)
    &&& forall|j: int|
        0 <= j < entries.len() ==> {
            let e = #[trigger] entries[j];
            &&& key_occurs(records, e.path_key@, e.line)
            &&& e.covered_regions as nat == covered_sum(records, e.path_key@, e.line)
            &&& e.total_regions as nat == merged_total(records, e.path_key@, e.line)
        }
    &&& forall|i: int|
        0 <= i < records.len() ==> exists|j: int|
            0 <= j < entries.len() && has_key(
                #[trigger] entries[j],
                (#[trigger] records[i]).path_key@,
                records[i].line,
            )
}

/// Coverage records, one per `(path_key, line)` key.
pub struct CoverageIndex {
    entries: Vec<CoverageRecord>,
}

impl CoverageIndex {
    #[verifier::type_invariant]
    spec fn well_formed(self) -> bool {
        keys_unique(self.entries@)
    }
}

impl View for CoverageIndex {
    type V = Seq<CoverageRecord>;

    closed spec fn view(&self) -> Seq<CoverageRecord> {
        self.entries@
    }
}

proof fn lemma_sums_without_key(s: Seq<CoverageRecord>, path_key: Seq<char>, line: usize)
    requires
        !key_occurs(s, path_key, line),
    ensures
        covered_sum(s, path_key, line) == 0,
        covered_records_total(s, path_key, line) == 0,
        all_records_total(s, path_key, line) == 0,
    decreases s.len(),
{
    if s.len() > 0 {
        assert(!has_key(s[s.len() - 1], path_key, line));
        assert forall|i: int|
            0 <= i < s.drop_last().len() implies !has_key(
            #[trigger] s.drop_last()[i],
            path_key,
            line,
        ) by {
            assert(s.drop_last()[i] == s[i]);
        }
        lemma_sums_without_key(s.drop_last(), path_key, line);
    }
}

proof fn lemma_uncovered_total(s: Seq<CoverageRecord>, path_key: Seq<char>, line: usize)
    requires
        covered_sum(s, path_key, line) == 0,
    ensures
        covered_records_total(s, path_key, line) == 0,
    decreases s.len(),
{
    if s.len() > 0 {
        lemma_uncovered_total(s.drop_last(), path_key, line);
    }
}

/// Whether an index entry falls within a function: same file, and a line
/// from the function's first to its last.
pub open spec fn in_span(e: CoverageRecord, f: SourceFunction) -> bool {
    e.path_key@ == f.path_key@ && f.line <= e.line <= f.end_line
}

/// The covered regions of the entries within a function.
pub open spec fn span_covered(s: Seq<CoverageRecord>, f: SourceFunction) -> nat
    decreases s.len(),
{
    if s.len() == 0 {
        0
    } else {
        span_covered(s.drop_last(), f) + if in_span(s.last(), f) {
            s.last().covered_regions as nat
        } else {
            0
        }
    }
}

/// The regions of the entries within a function.
pub open spec fn span_total(s: Seq<CoverageRecord>, f: SourceFunction) -> nat
    decreases s.len(),
{
    if s.len() == 0 {
        0
    } else {
        span_total(s.drop_last(), f) + if in_span(s.last(), f) {
            s.last().total_regions as nat
        } else {
            0
        }
    }
}

/// Whether some entry falls within the function.
pub open spec fn span_matched(s: Seq<CoverageRecord>, f: SourceFunction) -> bool {
    exists|i: int| 0 <= i < s.len() && in_span(#[trigger] s[i], f)
}

proof fn lemma_span_prefix(s: Seq<CoverageRecord>, f: SourceFunction, i: int)
    requires
        0 <= i <= s.len(),
    ensures
        span_covered(s.take(i), f) <= span_covered(s, f),
        span_total(s.take(i), f) <= span_total(s, f),
    decreases s.len(),
{
    if i < s.len() {
        lemma_span_prefix(s.drop_last(), f, i);
        assert(s.drop_last().take(i) =~= s.take(i));
    } else {
        assert(s.take(i) =~= s);
    }
}

impl CoverageIndex {
    /// The entry filed under `(path_key, line)`, if there is one.
    pub fn get(&self, path_key: &str, line: usize) -> (found: Option<&CoverageRecord>)
        ensures
            found is None <==> forall|j: int|
                0 <= j < self@.len() ==> !has_key(#[trigger] self@[j], path_key@, line),
            found matches Some(e) ==> exists|j: int|
                0 <= j < self@.len() && self@[j] == *e && has_key(*e, path_key@, line),
            found matches Some(e) ==> forall|j: int|
                0 <= j < self@.len() && has_key(#[trigger] self@[j], path_key@, line) ==> self@[j]
                    == *e,
    {
        proof {
            use_type_invariant(self);
        }
        let mut j: usize = 0;
        while j < self.entries.len()
            invariant
                j <= self.entries@.len(),
                keys_unique(self.entries@),
                forall|t: int|
                    0 <= t < j ==> !has_key(#[trigger] self.entries@[t], path_key@, line),
            decreases self.entries.len() - j,
        {
            let e = &self.entries[j];
            if e.line == line && str_eq(e.path_key.as_str(), path_key) {
                assert(self@[j as int] == *e);
                assert(has_key(*e, path_key@, line));
                assert forall|t: int|
                    0 <= t < self@.len() && has_key(#[trigger] self@[t], path_key@, line) implies self@[t]
                    == *e by {
                    if t != j {
                        assert(!has_key(self@[t], self@[j as int].path_key@, self@[j as int].line));
                    }
                }
                return Some(e);
            }
            j += 1;
        }
        None
    }

    /// Indexes the records by key, merging duplicates as the module says.
    pub fn from_records(records: Vec<CoverageRecord>) -> (index: Self)
        requires
            merges_fit(records@),
        ensures
            merges_records(index@, records@),
    {
        match Self::try_from_records(records) {
            Some(index) => index,
            None => CoverageIndex { entries: Vec::new() },
        }
    }

    /// Indexes the records by key, merging duplicates as the module says;
    /// `None` where a merged count does not fit in a `u32`.
    pub fn try_from_records(records: Vec<CoverageRecord>) -> (index: Option<Self>)
        ensures
            match index {
                Some(index) => merges_fit(records@) && merges_records(index@, records@),
                None => !merges_fit(records@),
            },
    {
        let ghost s = records@;
        let mut entries: Vec<CoverageRecord> = Vec::new();
        let mut i: usize = 0;
        while i < records.len()
            invariant
                s == records@,
                forall|k: int| 0 < k <= i ==> #[trigger] merge_fits_at(s, k),
                i <= s.len(),
                merges_records(entries@, s.take(i as int)),
            decreases s.len() - i,
        {
            let r = &records[i];
            let ghost prefix = s.take(i as int);
            let ghost next = s.take(i + 1);
            assert(next.drop_last() =~= prefix);
            assert(next.last() == s[i as int]);
            let mut j: usize = 0;
            let mut found = false;
            while j < entries.len()
                invariant_except_break
                    !found,
                    forall|t: int| 0 <= t < j ==> !has_key(#[trigger] entries@[t], r.path_key@, r.line),
                invariant
                    j <= entries.len(),
                ensures
                    found ==> j < entries.len() && has_key(entries@[j as int], r.path_key@, r.line),
                    !found ==> forall|t: int|
                        0 <= t < entries.len() ==> !has_key(
                            #[trigger] entries@[t],
                            r.path_key@,
                            r.line,
                        ),
                decreases entries.len() - j,
            {
                if entries[j].path_key == r.path_key && entries[j].line == r.line {
                    found = true;
                    break;
                }
                j += 1;
            }
            let ghost old_entries = entries@;
            if found {
                let e = &entries[j];
                let covered: u32;
                let total: u32;
                if e.covered_regions == 0 && r.covered_regions > 0 {
                    proof {
                        lemma_uncovered_total(prefix, r.path_key@, r.line);
                    }
                    covered = r.covered_regions;
                    total = r.total_regions;
                } else if e.covered_regions > 0 && r.covered_regions == 0 {
                    covered = e.covered_regions;
                    total = e.total_regions;
                } else {
                    if e.covered_regions == 0 {
                        proof {
                            lemma_uncovered_total(prefix, r.path_key@, r.line);
                        }
                    }
                    assert(covered_sum(next, r.path_key@, r.line) == e.covered_regions
                        + r.covered_regions);
                    assert(merged_total(next, r.path_key@, r.line) == e.total_regions
                        + r.total_regions);
                    match (
                        e.covered_regions.checked_add(r.covered_regions),
                        e.total_regions.checked_add(r.total_regions),
                    ) {
                        (Some(c), Some(t)) => {
                            covered = c;
                            total = t;
                        },
                        _ => {
                            assert(!merge_fits_at(s, i + 1));
                            return None;
                        },
                    }
                }
                let merged = CoverageRecord {
                    path_key: e.path_key.clone(),
                    line: e.line,
                    covered_regions: covered,
                    total_regions: total,
                };
                entries.set(j, merged);
            } else {
                proof {
                    assert(!key_occurs(prefix, r.path_key@, r.line)) by {
                        if key_occurs(prefix, r.path_key@, r.line) {
                            let t = choose|t: int|
                                0 <= t < prefix.len() && has_key(
                                    #[trigger] prefix[t],
                                    r.path_key@,
                                    r.line,
                                );
                            let u = choose|u: int|
                                0 <= u < old_entries.len() && has_key(
                                    #[trigger] old_entries[u],
                                    prefix[t].path_key@,
                                    prefix[t].line,
                                );
                            assert(has_key(old_entries[u], r.path_key@, r.line));
                        }
                    }
                    lemma_sums_without_key(prefix, r.path_key@, r.line);
                }
                entries.push(
                    CoverageRecord {
                        path_key: r.path_key.clone(),
                        line: r.line,
                        covered_regions: r.covered_regions,
                        total_regions: r.total_regions,
                    },
                );
            }
            proof {
                assert forall|t: int|
                    0 <= t < next.len() implies exists|u: int|
                    0 <= u < entries@.len() && has_key(
                        #[trigger] entries@[u],
                        (#[trigger] next[t]).path_key@,
                        next[t].line,
                    ) by {
                    if t < i {
                        assert(next[t] == prefix[t]);
                        let u = choose|u: int|
                            0 <= u < old_entries.len() && has_key(
                                #[trigger] old_entries[u],
                                prefix[t].path_key@,
                                prefix[t].line,
                            );
                        assert(has_key(entries@[u], next[t].path_key@, next[t].line));
                    } else {
                        let u = if found {
                            j as int
                        } else {
                            old_entries.len() as int
                        };
                        assert(has_key(entries@[u], next[t].path_key@, next[t].line));
                    }
                }
                assert forall|u: int| 0 <= u < entries@.len() implies {
                    let e = #[trigger] entries@[u];
                    &&& key_occurs(next, e.path_key@, e.line)
                    &&& e.covered_regions as nat == covered_sum(next, e.path_key@, e.line)
                    &&& e.total_regions as nat == merged_total(next, e.path_key@, e.line)
                } by {
                    let e = entries@[u];
                    if u < old_entries.len() && !(found && u == j) {
                        let oe = old_entries[u];
                        assert(e == oe);
                        assert(!has_key(*r, e.path_key@, e.line));
                        let t = choose|t: int|
                            0 <= t < prefix.len() && has_key(#[trigger] prefix[t], e.path_key@, e.line);
                        assert(next[t] == prefix[t]);
                    } else {
                        assert(next[i as int] == *r);
                        assert(has_key(next[i as int], e.path_key@, e.line));
                    }
                }
                assert(keys_unique(entries@));
                let u = if found {
                    j as int
                } else {
                    old_entries.len() as int
                };
                assert(has_key(entries@[u], r.path_key@, r.line));
                assert(merge_fits_at(s, i + 1));
            }
            i += 1;
        }
        assert(s.take(s.len() as int) =~= s);
        Some(CoverageIndex { entries })
    }
}

/// What matching a function against index entries gives: nothing where no
/// entry falls within it, else a record at the function's own file and line
/// carrying the summed counts of the entries within it.
pub open spec fn span_match(
    matched: Option<CoverageRecord>,
    entries: Seq<CoverageRecord>,
    function: SourceFunction,
) -> bool {
    &&& matched is None <==> !span_matched(entries, function)
    &&& matched matches Some(r) ==> {
        &&& r.path_key@ == function.path_key@
        &&& r.line == function.line
        &&& r.covered_regions as nat == span_covered(entries, function)
        &&& r.total_regions as nat == span_total(entries, function)
    }
}

/// The coverage of a function: the entries of its file whose line falls
/// within the function, summed, and reported at the function's own line;
/// `None` where no entry falls within it.
pub fn match_function_coverage(function: &SourceFunction, coverage_index: &CoverageIndex) -> (matched:
    Option<CoverageRecord>)
    requires
        span_covered(coverage_index@, *function) <= u32::MAX,
        span_total(coverage_index@, *function) <= u32::MAX,
    ensures
        span_match(matched, coverage_index@, *function),
{
    let entries = &coverage_index.entries;
    let ghost s = entries@;
    let ghost f = *function;
    let mut covered: u32 = 0;
    let mut total: u32 = 0;
    let mut any = false;
    let mut i: usize = 0;
    while i < entries.len()
        invariant
            s == entries@,
            s == coverage_index@,
            f == *function,
            i <= s.len(),
            covered as nat == span_covered(s.take(i as int), f),
            total as nat == span_total(s.take(i as int), f),
            span_covered(s, f) <= u32::MAX,
            span_total(s, f) <= u32::MAX,
            any == span_matched(s.take(i as int), f),
        decreases s.len() - i,
    {
        let e = &entries[i];
        let ghost next = s.take(i + 1);
        assert(next.drop_last() =~= s.take(i as int));
        assert(next.last() == s[i as int]);
        proof {
            lemma_span_prefix(s, f, i + 1);
        }
        if e.line >= function.line && e.line <= function.end_line && e.path_key
            == function.path_key {
            covered = covered + e.covered_regions;
            total = total + e.total_regions;
            assert(next[i as int] == s[i as int]);
            any = true;
        } else {
            assert forall|t: int| 0 <= t < next.len() && in_span(#[trigger] next[t], f) implies 0 <= t
                < i && in_span(s.take(i as int)[t], f) by {
                assert(next[t] == s.take(i as int)[t] || t == i);
            }
        }
        assert(any == span_matched(next, f)) by {
            if span_matched(s.take(i as int), f) {
                let t = choose|t: int|
                    0 <= t < s.take(i as int).len() && in_span(#[trigger] s.take(i as int)[t], f);
                assert(next[t] == s.take(i as int)[t]);
            }
        }
        i += 1;
    }
    assert(s.take(s.len() as int) =~= s);
    if any {
        Some(
            CoverageRecord {
                path_key: function.path_key.clone(),
                line: function.line,
                covered_regions: covered,
                total_regions: total,
            },
        )
    } else {
        None
    }
}

/// Whether the entries within a function sum to counts that fit in a `u32`,
/// as `match_function_coverage` needs.
pub fn span_fits(function: &SourceFunction, coverage_index: &CoverageIndex) -> (fits: bool)
    ensures
        fits == (span_covered(coverage_index@, *function) <= u32::MAX && span_total(
            coverage_index@,
            *function,
        ) <= u32::MAX),
{
    let entries = &coverage_index.entries;
    let ghost s = entries@;
    let ghost f = *function;
    let mut covered: u32 = 0;
    let mut total: u32 = 0;
    let mut i: usize = 0;
    while i < entries.len()
        invariant
            s == entries@,
            s == coverage_index@,
            f == *function,
            i <= s.len(),
            covered as nat == span_covered(s.take(i as int), f),
            total as nat == span_total(s.take(i as int), f),
        decreases s.len() - i,
    {
        let e = &entries[i];
        let ghost next = s.take(i + 1);
        assert(next.drop_last() =~= s.take(i as int));
        assert(next.last() == s[i as int]);
        if e.line >= function.line && e.line <= function.end_line && e.path_key
            == function.path_key {
            match (covered.checked_add(e.covered_regions), total.checked_add(e.total_regions)) {
                (Some(c), Some(t)) => {
                    covered = c;
                    total = t;
                },
                _ => {
                    proof {
                        lemma_span_prefix(s, f, i + 1);
                    }
                    return false;
                },
            }
        }
        i += 1;
    }
    assert(s.take(s.len() as int) =~= s);
    true
}

/// A record at a function's own file and first line always matches it: the
/// match is reported at that line and counts at least that record's regions.
pub proof fn law_own_line_matches(
    entries: Seq<CoverageRecord>,
    function: SourceFunction,
    matched: Option<CoverageRecord>,
    k: int,
)
    requires
        span_match(matched, entries, function),
        0 <= k < entries.len(),
        entries[k].path_key@ == function.path_key@,
        entries[k].line == function.line,
        function.line <= function.end_line,
    ensures
        matched matches Some(r) && r.line == function.line && r.covered_regions
            >= entries[k].covered_regions && r.total_regions >= entries[k].total_regions,
{
    assert(in_span(entries[k], function));
    lemma_span_at_least(entries, function, k);
}

proof fn lemma_span_at_least(s: Seq<CoverageRecord>, f: SourceFunction, k: int)
    requires
        0 <= k < s.len(),
        in_span(s[k], f),
    ensures
        span_covered(s, f) >= s[k].covered_regions,
        span_total(s, f) >= s[k].total_regions,
    decreases s.len(),
{
    if k < s.len() - 1 {
        assert(s.drop_last()[k] == s[k]);
        lemma_span_at_least(s.drop_last(), f, k);
    }
}

/// Looking a key up after indexing: an entry stands under a key exactly where
/// some record has that key, only one does, and it carries the covered
/// regions of all records under the key and the total regions of those that
/// were covered where any was, else of all of them.
pub proof fn law_lookup_after_indexing(
    records: Seq<CoverageRecord>,
    entries: Seq<CoverageRecord>,
    path_key: Seq<char>,
    line: usize,
)
    requires
        merges_records(entries, records),
    ensures
        (exists|j: int| 0 <= j < entries.len() && has_key(#[trigger] entries[j], path_key, line))
            <==> key_occurs(records, path_key, line),
        forall|j: int|
            0 <= j < entries.len() && has_key(#[trigger] entries[j], path_key, line) ==> {
                &&& entries[j].covered_regions as nat == covered_sum(records, path_key, line)
                &&& entries[j].total_regions as nat == merged_total(records, path_key, line)
            },
        forall|i: int, j: int|
            0 <= i < entries.len() && 0 <= j < entries.len() && has_key(
                #[trigger] entries[i],
                path_key,
                line,
            ) && has_key(#[trigger] entries[j], path_key, line) ==> i == j,
{
    if key_occurs(records, path_key, line) {
        let i = choose|i: int| 0 <= i < records.len() && has_key(#[trigger] records[i], path_key, line);
        let j = choose|j: int|
            0 <= j < entries.len() && has_key(
                #[trigger] entries[j],
                (#[trigger] records[i]).path_key@,
                records[i].line,
            );
        assert(has_key(entries[j], path_key, line));
    }
    if exists|j: int| 0 <= j < entries.len() && has_key(#[trigger] entries[j], path_key, line) {
        let j = choose|j: int| 0 <= j < entries.len() && has_key(#[trigger] entries[j], path_key, line);
        let e = entries[j];
        assert(key_occurs(records, e.path_key@, e.line));
    }
    assert forall|i: int, j: int|
        0 <= i < entries.len() && 0 <= j < entries.len() && has_key(
            #[trigger] entries[i],
            path_key,
            line,
        ) && has_key(#[trigger] entries[j], path_key, line) implies i == j by {
        if i != j {
            assert(!has_key(entries[i], entries[j].path_key@, entries[j].line));
        }
    }
}

/// An entry counts toward a function exactly when it lies in the function's
/// file on a line from the function's first to its last: one outside adds
/// nothing to the counts and matches nothing, one inside adds its regions.
pub proof fn law_only_entries_within_span_count(
    s: Seq<CoverageRecord>,
    e: CoverageRecord,
    f: SourceFunction,
)
    ensures
        (e.path_key@ != f.path_key@ || e.line < f.line || e.line > f.end_line) ==> {
            &&& span_covered(s.push(e), f) == span_covered(s, f)
            &&& span_total(s.push(e), f) == span_total(s, f)
            &&& span_matched(s.push(e), f) == span_matched(s, f)
        },
        (e.path_key@ == f.path_key@ && f.line <= e.line && e.line <= f.end_line) ==> {
            &&& span_covered(s.push(e), f) == span_covered(s, f) + e.covered_regions
            &&& span_total(s.push(e), f) == span_total(s, f) + e.total_regions
            &&& span_matched(s.push(e), f)
        },
{
    let t = s.push(e);
    assert(t.drop_last() =~= s);
    assert(t.last() == e);
    assert(t[s.len() as int] == e);
    if span_matched(s, f) {
        let i = choose|i: int| 0 <= i < s.len() && in_span(#[trigger] s[i], f);
        assert(t[i] == s[i]);
    }
    if span_matched(t, f) && !in_span(e, f) {
        let i = choose|i: int| 0 <= i < t.len() && in_span(#[trigger] t[i], f);
        assert(i < s.len());
        assert(s[i] == t[i]);
    }
}

/// Where no entry lies in the function's file on a line from its first to
/// its last, the function has no coverage match.
pub proof fn law_no_entry_within_span_no_match(
    entries: Seq<CoverageRecord>,
    f: SourceFunction,
    matched: Option<CoverageRecord>,
)
    requires
        span_match(matched, entries, f),
        forall|i: int|
            0 <= i < entries.len() ==> (#[trigger] entries[i]).path_key@ != f.path_key@
                || entries[i].line < f.line || entries[i].line > f.end_line,
    ensures
        matched is None,
{
}

/// A weight summed over a sequence of records.
pub open spec fn weight_sum(s: Seq<CoverageRecord>, w: spec_fn(CoverageRecord) -> nat) -> nat
    decreases s.len(),
{
    if s.len() == 0 {
        0
    } else {
        weight_sum(s.drop_last(), w) + w(s.last())
    }
}

proof fn lemma_weight_sum_remove(s: Seq<CoverageRecord>, i: int, w: spec_fn(CoverageRecord) -> nat)
    requires
        0 <= i < s.len(),
    ensures
        weight_sum(s, w) == weight_sum(s.remove(i), w) + w(s[i]),
    decreases s.len(),
{
    if i == s.len() - 1 {
        assert(s.remove(i) =~= s.drop_last());
    } else {
        lemma_weight_sum_remove(s.drop_last(), i, w);
        assert(s.remove(i).drop_last() =~= s.drop_last().remove(i));
        assert(s.remove(i).last() == s.last());
    }
}

proof fn lemma_weight_sum_permutation(
    s1: Seq<CoverageRecord>,
    s2: Seq<CoverageRecord>,
    w: spec_fn(CoverageRecord) -> nat,
)
    requires
        s1.to_multiset() == s2.to_multiset(),
    ensures
        weight_sum(s1, w) == weight_sum(s2, w),
    decreases s1.len(),
{
    broadcast use vstd::seq_lib::group_to_multiset_ensures;
    broadcast use vstd::multiset::group_multiset_axioms;

    if s1.len() == 0 {
        vstd::seq_lib::to_multiset_len(s1);
        vstd::seq_lib::to_multiset_len(s2);
    } else {
        let x = s1.last();
        assert(s1 =~= s1.drop_last().push(x));
        assert(s1.to_multiset() == s1.drop_last().to_multiset().insert(x));
        assert(s2.to_multiset().count(x) > 0);
        assert(s2.contains(x));
        let i = choose|i: int| 0 <= i < s2.len() && s2[i] == x;
        assert(s2.remove(i).to_multiset() == s2.to_multiset().remove(x));
        assert(s1.drop_last().to_multiset() =~= s2.remove(i).to_multiset());
        lemma_weight_sum_permutation(s1.drop_last(), s2.remove(i), w);
        lemma_weight_sum_remove(s2, i, w);
    }
}

/// What a record adds to the covered regions under a key.
pub open spec fn covered_weight(path_key: Seq<char>, line: usize) -> spec_fn(CoverageRecord) -> nat {
    |r: CoverageRecord|
        if has_key(r, path_key, line) {
            r.covered_regions as nat
        } else {
            0
        }
}

/// What a record adds to the regions of the covered records under a key.
pub open spec fn covered_total_weight(path_key: Seq<char>, line: usize) -> spec_fn(
    CoverageRecord,
) -> nat {
    |r: CoverageRecord|
        if has_key(r, path_key, line) && r.covered_regions > 0 {
            r.total_regions as nat
        } else {
            0
        }
}

/// What a record adds to the regions of all records under a key.
pub open spec fn all_total_weight(path_key: Seq<char>, line: usize) -> spec_fn(CoverageRecord) -> nat {
    |r: CoverageRecord|
        if has_key(r, path_key, line) {
            r.total_regions as nat
        } else {
            0
        }
}

proof fn lemma_sums_are_weight_sums(s: Seq<CoverageRecord>, path_key: Seq<char>, line: usize)
    ensures
        covered_sum(s, path_key, line) == weight_sum(s, covered_weight(path_key, line)),
        covered_records_total(s, path_key, line) == weight_sum(
            s,
            covered_total_weight(path_key, line),
        ),
        all_records_total(s, path_key, line) == weight_sum(s, all_total_weight(path_key, line)),
    decreases s.len(),
{
    if s.len() > 0 {
        lemma_sums_are_weight_sums(s.drop_last(), path_key, line);
    }
}

/// Whether `entries` holds an entry under the key of `e` with the same counts.
pub open spec fn has_twin(e: CoverageRecord, entries: Seq<CoverageRecord>) -> bool {
    exists|k: int|
        0 <= k < entries.len() && has_key(#[trigger] entries[k], e.path_key@, e.line)
            && entries[k].covered_regions == e.covered_regions && entries[k].total_regions
            == e.total_regions
}

proof fn lemma_twin_entry(
    records1: Seq<CoverageRecord>,
    records2: Seq<CoverageRecord>,
    entries1: Seq<CoverageRecord>,
    entries2: Seq<CoverageRecord>,
    j: int,
)
    requires
        records1.to_multiset() == records2.to_multiset(),
        merges_records(entries1, records1),
        merges_records(entries2, records2),
        0 <= j < entries1.len(),
    ensures
        has_twin(entries1[j], entries2),
{
    broadcast use vstd::seq_lib::group_to_multiset_ensures;

    let e = entries1[j];
    let p = e.path_key@;
    let l = e.line;
    let t = choose|t: int| 0 <= t < records1.len() && has_key(#[trigger] records1[t], p, l);
    let x = records1[t];
    assert(records1.contains(x));
    assert(records2.to_multiset().count(x) > 0);
    assert(records2.contains(x));
    let i = choose|i: int| 0 <= i < records2.len() && records2[i] == x;
    let k = choose|k: int|
        0 <= k < entries2.len() && has_key(
            #[trigger] entries2[k],
            records2[i].path_key@,
            records2[i].line,
        );
    lemma_sums_are_weight_sums(records1, p, l);
    lemma_sums_are_weight_sums(records2, p, l);
    lemma_weight_sum_permutation(records1, records2, covered_weight(p, l));
    lemma_weight_sum_permutation(records1, records2, covered_total_weight(p, l));
    lemma_weight_sum_permutation(records1, records2, all_total_weight(p, l));
    assert(has_key(entries2[k], p, l));
    let e2 = entries2[k];
    assert(e2.covered_regions as nat == covered_sum(records2, p, l));
    assert(e2.total_regions as nat == merged_total(records2, p, l));
}

/// Merged counts do not depend on the order in which the records arrive:
/// two indexes built from the same records in any two orders hold, for every
/// key, an entry with the same covered and total regions.
pub proof fn law_merge_ignores_arrival_order(
    records1: Seq<CoverageRecord>,
    records2: Seq<CoverageRecord>,
    entries1: Seq<CoverageRecord>,
    entries2: Seq<CoverageRecord>,
)
    requires
        records1.to_multiset() == records2.to_multiset(),
        merges_records(entries1, records1),
        merges_records(entries2, records2),
    ensures
        forall|j: int| 0 <= j < entries1.len() ==> has_twin(#[trigger] entries1[j], entries2),
{
    assert forall|j: int| 0 <= j < entries1.len() implies has_twin(
        #[trigger] entries1[j],
        entries2,
    ) by {
        lemma_twin_entry(records1, records2, entries1, entries2, j);
    }
}

} // verus!
