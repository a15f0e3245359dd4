//! Discovery of the functions of a package, over its parsed source roots.
use vstd::prelude::*;

use crate::file_walker::{
    law_found_functions_begin_before_they_end, root_found, FileWalker, ParsedFile,
};
use crate::syntax::items_lines_in_order;
use crate::test_module_registry::registered_modules;
use crate::package_context::PackageContext;
use crate::source_function::{
    append_found, complexities_fit, found_as, functions_view, lemma_fit_concat, lemma_lines_concat,
    lines_ordered, FunctionView,
    SourceFunction,
};

verus! {

/// The functions of a package: those of each source root in turn, from the
/// files parsed under it.
pub open spec fn package_found(package: PackageContext, parsed: Seq<Vec<ParsedFile>>) -> Seq<
    FunctionView,
>
    decreases parsed.len(),
{
    if parsed.len() == 0 {
        Seq::empty()
    } else {
        package_found(package, parsed.drop_last()) + root_found(
            package,
            package.source_roots@[parsed.len() - 1]@,
            parsed.last()@,
        )
    }
}

proof fn lemma_package_prefix_fit(package: PackageContext, parsed: Seq<Vec<ParsedFile>>, k: int)
    requires
        0 <= k <= parsed.len(),
        complexities_fit(package_found(package, parsed)),
    ensures
        complexities_fit(package_found(package, parsed.take(k))),
    decreases parsed.len(),
{
    if k < parsed.len() {
        lemma_fit_concat(
            package_found(package, parsed.drop_last()),
            root_found(package, package.source_roots@[parsed.len() - 1]@, parsed.last()@),
        );
        assert(parsed.drop_last().take(k) =~= parsed.take(k));
        lemma_package_prefix_fit(package, parsed.drop_last(), k);
    } else {
        assert(parsed.take(k) =~= parsed);
    }
}

/// Every function discovered in a package begins on a line no later than its
/// last, where each parsed file's functions do, as those of files parsed by
/// `parsed_file` do.
pub proof fn law_discovered_functions_begin_before_they_end(
    package: PackageContext,
    parsed: Seq<Vec<ParsedFile>>,
)
    requires
        forall|i: int, k: int|
            0 <= i < parsed.len() && 0 <= k < parsed[i]@.len() ==> items_lines_in_order(
                (#[trigger] parsed[i]@[k]).syntax.items@,
            ),
    ensures
        lines_ordered(package_found(package, parsed)),
    decreases parsed.len(),
{
    if parsed.len() > 0 {
        let before = parsed.drop_last();
        assert forall|i: int, k: int|
            0 <= i < before.len() && 0 <= k < before[i]@.len() implies items_lines_in_order(
            (#[trigger] before[i]@[k]).syntax.items@,
        ) by {
            assert(before[i] == parsed[i]);
        }
        law_discovered_functions_begin_before_they_end(package, before);
        let files = parsed.last()@;
        assert(parsed[parsed.len() - 1] == parsed.last());
        assert forall|k: int| 0 <= k < files.len() implies items_lines_in_order(
            (#[trigger] files[k]).syntax.items@,
        ) by {
            assert(files[k] == parsed[parsed.len() - 1]@[k]);
        }
        law_found_functions_begin_before_they_end(
            package,
            package.source_roots@[parsed.len() - 1]@,
            files,
            registered_modules(files),
        );
        lemma_lines_concat(
            package_found(package, before),
            root_found(package, package.source_roots@[parsed.len() - 1]@, files),
        );
    }
}

/// The functions of a package, from the files parsed under each of its
/// source roots (`parsed[i]` under `package.source_roots[i]`); `None` where
/// a function's complexity does not fit in a `u32`.
pub fn try_discover_functions(package: &PackageContext, parsed: &[Vec<ParsedFile>]) -> (found:
    Option<Vec<SourceFunction>>)
    requires
        parsed@.len() == package.source_roots@.len(),
    ensures
        found_as(found, package_found(*package, parsed@)),
{
    let walker = FileWalker::new(package);
    let ghost p = parsed@;
    let mut all: Vec<SourceFunction> = Vec::new();
    let mut i: usize = 0;
    assert(p.take(0) =~= Seq::<Vec<ParsedFile>>::empty());
    assert(functions_view(all@) =~= Seq::<FunctionView>::empty());
    while i < parsed.len()
        invariant
            p == parsed@,
            p.len() == package.source_roots@.len(),
            walker.package == package,
            i <= p.len(),
            functions_view(all@) == package_found(*package, p.take(i as int)),
            complexities_fit(package_found(*package, p.take(i as int))),
        decreases p.len() - i,
    {
        assert(p.take(i + 1).drop_last() =~= p.take(i as int));
        assert(p.take(i + 1).last() == p[i as int]);
        let part = walker.try_process_source_root(package.source_roots[i].as_str(), parsed[i].as_slice());
        proof {
            lemma_fit_concat(
                package_found(*package, p.take(i as int)),
                root_found(*package, package.source_roots@[i as int]@, p[i as int]@),
            );
        }
        match part {
            Some(part) => {
                append_found(&mut all, part);
            },
            None => {
                proof {
                    if complexities_fit(package_found(*package, p)) {
                        lemma_package_prefix_fit(*package, p, i + 1);
                    }
                }
                return None;
            },
        }
        i += 1;
    }
    assert(p.take(p.len() as int) =~= p);
    Some(all)
}

/// The functions of a package, from the files parsed under each of its
/// source roots (`parsed[i]` under `package.source_roots[i]`).
pub fn discover_functions(package: &PackageContext, parsed: &[Vec<ParsedFile>]) -> (functions: Vec<
    SourceFunction,
>)
    requires
        parsed@.len() == package.source_roots@.len(),
        complexities_fit(package_found(*package, parsed@)),
    ensures
        functions_view(functions@) == package_found(*package, parsed@),
{
    match try_discover_functions(package, parsed) {
        Some(functions) => functions,
        None => Vec::new(),
    }
}

/// Finds the functions of a package.
pub trait FunctionDiscovery {
    /// The functions of a package, from the files parsed under each of its
    /// source roots; `None` where one cannot be scored.
    fn discover(&self, package: &PackageContext, parsed: &[Vec<ParsedFile>]) -> Option<
        Vec<SourceFunction>,
    >
        requires
            parsed@.len() == package.source_roots@.len(),
    ;
}

/// Discovers functions in the package's own source files.
#[derive(Debug, Clone, Copy, Default)]
pub struct SourceFunctionDiscovery;

impl SourceFunctionDiscovery {
    pub fn new() -> (discovery: Self) {
        SourceFunctionDiscovery
    }
}

impl FunctionDiscovery for SourceFunctionDiscovery {
    fn discover(&self, package: &PackageContext, parsed: &[Vec<ParsedFile>]) -> (found: Option<
        Vec<SourceFunction>,
    >)
        ensures
            found_as(found, package_found(*package, parsed@)),
    {
        try_discover_functions(package, parsed)
    }
}

} // verus!
