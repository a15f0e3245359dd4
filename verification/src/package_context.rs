//! A package selected for analysis, with where its sources stand.
use vstd::prelude::*;

use crate::paths::strings_view;

verus! {

/// A selected package: its name, directories, source roots and the options
/// that decide which of its files are analysed.
#[derive(Debug, Clone)]
pub struct PackageContext {
    pub name: String,
    pub manifest_dir: String,
    pub workspace_root: String,
    pub source_roots: Vec<String>,
    pub include_test_targets: bool,
    pub exclude_paths: Vec<String>,
}

/// The names of the packages, in order.
pub open spec fn package_names(packages: Seq<PackageContext>) -> Seq<Seq<char>> {
    packages.map_values(|p: PackageContext| p.name@)
}

/// The names of the packages, in order.
pub fn names_of(packages: &[PackageContext]) -> (names: Vec<String>)
    ensures
        strings_view(names@) == package_names(packages@),
{
    let mut names: Vec<String> = Vec::new();
    let mut i: usize = 0;
    while i < packages.len()
        invariant
            i <= packages@.len(),
            strings_view(names@) == package_names(packages@.take(i as int)),
        decreases packages@.len() - i,
    {
        let ghost before = names@;
        names.push(packages[i].name.clone());
        assert(strings_view(names@) =~= strings_view(before).push(packages@[i as int].name@));
        assert(package_names(packages@.take(i + 1)) =~= package_names(packages@.take(i as int)).push(
            packages@[i as int].name@,
        ));
        i += 1;
    }
    assert(packages@.take(packages@.len() as int) =~= packages@);
    names
}

} // verus!
