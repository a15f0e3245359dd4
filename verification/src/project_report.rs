//! The project-level verdict, the exit status, and the name of the scope.
use vstd::prelude::*;

use crate::package_context::{names_of, package_names, PackageContext};
use crate::paths::strings_view;
use crate::text::{join_strings, joined};
use crate::verdict::Verdict;

verus! {

/// How many of the verdicts are `v`.
pub open spec fn verdict_count(verdicts: Seq<Verdict>, v: Verdict) -> nat
    decreases verdicts.len(),
{
    if verdicts.len() == 0 {
        0
    } else {
        verdict_count(verdicts.drop_last(), v) + if verdicts.last() == v {
            1nat
        } else {
            0nat
        }
    }
}

/// How many of the verdicts are `v`.
pub fn count_verdicts(verdicts: &[Verdict], v: Verdict) -> (count: usize)
    ensures
        count == verdict_count(verdicts@, v),
{
    let mut count: usize = 0;
    let mut i: usize = 0;
    while i < verdicts.len()
        invariant
            i <= verdicts@.len(),
            count == verdict_count(verdicts@.take(i as int), v),
            count <= i,
        decreases verdicts@.len() - i,
    {
        assert(verdicts@.take(i + 1).drop_last() =~= verdicts@.take(i as int));
        if verdicts[i] == v {
            count += 1;
        }
        i += 1;
    }
    assert(verdicts@.take(verdicts@.len() as int) =~= verdicts@);
    count
}

/// The verdict on the whole project: crappy where it fails its threshold,
/// else warn where any function is crappy or warn, else clean.
pub open spec fn project_verdict_spec(project_fails: bool, verdicts: Seq<Verdict>) -> Verdict {
    if project_fails {
        Verdict::Crappy
    } else if verdicts.contains(Verdict::Crappy) || verdicts.contains(Verdict::Warn) {
        Verdict::Warn
    } else {
        Verdict::Clean
    }
}

/// The verdict on the whole project, from whether it fails its threshold
/// and the verdicts on its functions.
pub fn project_verdict(project_fails: bool, verdicts: &[Verdict]) -> (verdict: Verdict)
    ensures
        verdict == project_verdict_spec(project_fails, verdicts@),
{
    if project_fails {
        return Verdict::Crappy;
    }
    let mut i: usize = 0;
    while i < verdicts.len()
        invariant
            !project_fails,
            i <= verdicts@.len(),
            forall|t: int| 0 <= t < i ==> #[trigger] verdicts@[t] == Verdict::Clean,
        decreases verdicts@.len() - i,
    {
        if verdicts[i] != Verdict::Clean {
            proof {
                if verdicts@[i as int] == Verdict::Crappy {
                    assert(verdicts@.contains(Verdict::Crappy));
                } else {
                    assert(verdicts@.contains(Verdict::Warn));
                }
            }
            return Verdict::Warn;
        }
        i += 1;
    }
    Verdict::Clean
}

/// The process exit status: 0 under `--warn-only`, else 1 where the project
/// fails its threshold and 0 where it does not.
pub open spec fn exit_status_spec(warn_only: bool, project_fails: bool) -> u8 {
    if warn_only {
        0
    } else if project_fails {
        1
    } else {
        0
    }
}

/// The process exit status.
pub fn exit_status(warn_only: bool, project_fails: bool) -> (status: u8)
    ensures
        status == exit_status_spec(warn_only, project_fails),
{
    if warn_only {
        0
    } else if project_fails {
        1
    } else {
        0
    }
}

/// Under `--strict` the project fails as soon as one function is crappy.
pub fn strict_fails(crappy_functions: usize) -> (fails: bool)
    ensures
        fails == (crappy_functions > 0),
{
    crappy_functions > 0
}

/// The name of the analysed scope: the package names joined by `, `.
pub fn scope_name(packages: &[PackageContext]) -> (name: String)
    ensures
        name@ == joined(package_names(packages@), ", "@),
{
    let names = names_of(packages);
    join_strings(names.as_slice(), ", ")
}

} // verus!
