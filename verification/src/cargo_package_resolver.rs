//! Which packages of a Cargo workspace are analysed.
//!
//! Packages named with `--package` are taken in the order named; without
//! any, a single-package manifest analyses its root package and a workspace
//! analyses all of its members.
use vstd::prelude::*;

use crate::package_context::PackageContext;
use crate::paths::{parent_path, path_join, path_parent, strings_view};
use crate::source_root_collector::{roots_after, SourceRootCollector, TargetInfo};
use crate::text::str_eq;

verus! {

/// A package as Cargo's metadata describes it.
#[derive(Debug, Clone)]
pub struct PackageInfo {
    pub id: String,
    pub name: String,
    pub manifest_path: String,
    pub targets: Vec<TargetInfo>,
}

/// The parts of Cargo's metadata that package selection reads. `root_package`
/// is the index of the package whose manifest is the workspace's own, as
/// Cargo reports it.
#[derive(Debug, Clone)]
pub struct MetadataInfo {
    pub packages: Vec<PackageInfo>,
    pub workspace_members: Vec<String>,
    pub workspace_root: String,
    pub root_package: Option<usize>,
}

/// Why no package could be selected.
#[derive(Debug, Clone, PartialEq, Eq)]
pub enum ResolveError {
    /// A package named with `--package` is not in the manifest.
    PackageNotFound(String),
    /// The workspace has no member packages.
    NoWorkspaceMembers,
    /// A package's manifest path has no parent directory.
    ManifestWithoutParent,
}

/// A resolution error as plain values.
pub enum ResolveErrorView {
    PackageNotFound(Seq<char>),
    NoWorkspaceMembers,
    ManifestWithoutParent,
}

impl ResolveError {
    pub open spec fn view_error(self) -> ResolveErrorView {
        match self {
            ResolveError::PackageNotFound(name) => ResolveErrorView::PackageNotFound(name@),
            ResolveError::NoWorkspaceMembers => ResolveErrorView::NoWorkspaceMembers,
            ResolveError::ManifestWithoutParent => ResolveErrorView::ManifestWithoutParent,
        }
    }
}

/// The message the command line prints for an error.
pub open spec fn error_message(e: ResolveErrorView) -> Seq<char> {
    match e {
        ResolveErrorView::PackageNotFound(name) => "package "@ + name
            + " was not found in the manifest"@,
        ResolveErrorView::NoWorkspaceMembers => "manifest contains no workspace member packages"@,
        ResolveErrorView::ManifestWithoutParent => "package manifest has no parent directory"@,
    }
}

impl ResolveError {
    /// The message the command line prints for this error.
    pub fn message(&self) -> (text: String)
        ensures
            text@ == error_message(self.view_error()),
    {
        match self {
            ResolveError::PackageNotFound(name) => {
                let mut text = "package ".to_owned();
                text.append(name.as_str());
                text.append(" was not found in the manifest");
                text
            },
            ResolveError::NoWorkspaceMembers => "manifest contains no workspace member packages".to_owned(),
            ResolveError::ManifestWithoutParent => "package manifest has no parent directory".to_owned(),
        }
    }
}

/// The index of the first package with the given name.
pub open spec fn first_named(packages: Seq<PackageInfo>, name: Seq<char>) -> Option<int>
    decreases packages.len(),
{
    if packages.len() == 0 {
        None
    } else if packages[0].name@ == name {
        Some(0)
    } else {
        match first_named(packages.skip(1), name) {
            Some(i) => Some(i + 1),
            None => None,
        }
    }
}

/// The packages of the requested names, in the order requested; the first
/// name without a package is an error.
pub open spec fn named_selection(packages: Seq<PackageInfo>, requested: Seq<String>) -> Result<
    Seq<int>,
    ResolveErrorView,
>
    decreases requested.len(),
{
    if requested.len() == 0 {
        Ok(Seq::empty())
    } else {
        match named_selection(packages, requested.drop_last()) {
            Err(e) => Err(e),
            Ok(selected) => match first_named(packages, requested.last()@) {
                Some(i) => Ok(selected.push(i)),
                None => Err(ResolveErrorView::PackageNotFound(requested.last()@)),
            },
        }
    }
}

/// Whether a package id is a workspace member.
pub open spec fn is_member(members: Seq<String>, id: Seq<char>) -> bool {
    exists|m: int| 0 <= m < members.len() && (#[trigger] members[m])@ == id
}

/// The indices of the workspace members among the packages, in package order.
pub open spec fn member_indices(packages: Seq<PackageInfo>, members: Seq<String>) -> Seq<int>
    decreases packages.len(),
{
    if packages.len() == 0 {
        Seq::empty()
    } else {
        let before = member_indices(packages.drop_last(), members);
        if is_member(members, packages.last().id@) {
            before.push(packages.len() - 1)
        } else {
            before
        }
    }
}

/// The packages the analysis covers.
pub open spec fn selection(metadata: MetadataInfo, requested: Seq<String>) -> Result<
    Seq<int>,
    ResolveErrorView,
> {
    if requested.len() > 0 {
        named_selection(metadata.packages@, requested)
    } else if metadata.root_package is Some && metadata.workspace_members@.len() <= 1 {
        Ok(seq![metadata.root_package->0 as int])
    } else {
        let members = member_indices(metadata.packages@, metadata.workspace_members@);
        if members.len() == 0 {
            Err(ResolveErrorView::NoWorkspaceMembers)
        } else {
            Ok(members)
        }
    }
}

/// A package context as plain values.
pub struct ContextView {
    pub name: Seq<char>,
    pub manifest_dir: Seq<char>,
    pub workspace_root: Seq<char>,
    pub source_roots: Seq<Seq<char>>,
    pub include_test_targets: bool,
    pub exclude_paths: Seq<Seq<char>>,
}

pub open spec fn context_view(c: PackageContext) -> ContextView {
    ContextView {
        name: c.name@,
        manifest_dir: c.manifest_dir@,
        workspace_root: c.workspace_root@,
        source_roots: strings_view(c.source_roots@),
        include_test_targets: c.include_test_targets,
        exclude_paths: strings_view(c.exclude_paths@),
    }
}

/// The source roots of a package whose manifest sits in `manifest_dir`.
pub open spec fn package_roots(
    package: PackageInfo,
    manifest_dir: Seq<char>,
    include_test_targets: bool,
) -> Seq<Seq<char>> {
    let roots = roots_after(Seq::empty(), package.targets@, include_test_targets);
    if roots.len() == 0 {
        seq![path_join(manifest_dir, "src"@)]
    } else {
        roots
    }
}

/// The context of one selected package.
pub open spec fn package_context_spec(
    package: PackageInfo,
    workspace_root: Seq<char>,
    include_test_targets: bool,
    exclude_paths: Seq<Seq<char>>,
) -> Result<ContextView, ResolveErrorView> {
    match path_parent(package.manifest_path@) {
        None => Err(ResolveErrorView::ManifestWithoutParent),
        Some(dir) => Ok(
            ContextView {
                name: package.name@,
                manifest_dir: dir,
                workspace_root,
                source_roots: package_roots(package, dir, include_test_targets),
                include_test_targets,
                exclude_paths,
            },
        ),
    }
}

/// The contexts of the selected packages, in order; the first package
/// without a manifest directory is an error.
pub open spec fn contexts_spec(
    packages: Seq<PackageInfo>,
    selected: Seq<int>,
    workspace_root: Seq<char>,
    include_test_targets: bool,
    exclude_paths: Seq<Seq<char>>,
) -> Result<Seq<ContextView>, ResolveErrorView>
    decreases selected.len(),
{
    if selected.len() == 0 {
        Ok(Seq::empty())
    } else {
        match contexts_spec(
            packages,
            selected.drop_last(),
            workspace_root,
            include_test_targets,
            exclude_paths,
        ) {
            Err(e) => Err(e),
            Ok(contexts) => match package_context_spec(
                packages[selected.last()],
                workspace_root,
                include_test_targets,
                exclude_paths,
            ) {
                Err(e) => Err(e),
                Ok(c) => Ok(contexts.push(c)),
            },
        }
    }
}

/// The contexts of the packages the analysis covers.
pub open spec fn resolution(
    metadata: MetadataInfo,
    requested: Seq<String>,
    include_test_targets: bool,
    exclude_paths: Seq<Seq<char>>,
) -> Result<Seq<ContextView>, ResolveErrorView> {
    match selection(metadata, requested) {
        Err(e) => Err(e),
        Ok(selected) => contexts_spec(
            metadata.packages@,
            selected,
            metadata.workspace_root@,
            include_test_targets,
            exclude_paths,
        ),
    }
}

/// The metadata's root package, where it names one, is one of its packages.
pub open spec fn metadata_well_formed(metadata: MetadataInfo) -> bool {
    metadata.root_package matches Some(i) ==> i < metadata.packages@.len()
}

proof fn lemma_first_named_found(packages: Seq<PackageInfo>, name: Seq<char>)
    ensures
        first_named(packages, name) matches Some(i) ==> 0 <= i < packages.len()
            && packages[i].name@ == name,
    decreases packages.len(),
{
    if packages.len() > 0 {
        lemma_first_named_found(packages.skip(1), name);
    }
}

proof fn lemma_named_selection_found(packages: Seq<PackageInfo>, requested: Seq<String>)
    requires
        forall|k: int|
            0 <= k < requested.len() ==> first_named(packages, (#[trigger] requested[k])@) is Some,
    ensures
        named_selection(packages, requested) matches Ok(sel) && sel.len() == requested.len()
            && forall|k: int|
            0 <= k < requested.len() ==> Some(#[trigger] sel[k]) == first_named(
                packages,
                requested[k]@,
            ),
    decreases requested.len(),
{
    if requested.len() > 0 {
        let before = requested.drop_last();
        assert forall|k: int| 0 <= k < before.len() implies first_named(
            packages,
            (#[trigger] before[k])@,
        ) is Some by {
            assert(before[k] == requested[k]);
        }
        lemma_named_selection_found(packages, before);
        assert(first_named(packages, requested[requested.len() - 1]@) is Some);
    }
}

/// Packages named with `--package` are analysed in the order named, each the
/// first package of its name: where every name has a package, the selection
/// holds exactly one package per name.
pub proof fn law_named_packages_in_order(metadata: MetadataInfo, requested: Seq<String>)
    requires
        requested.len() > 0,
        forall|k: int|
            0 <= k < requested.len() ==> first_named(metadata.packages@, (#[trigger] requested[k])@)
                is Some,
    ensures
        selection(metadata, requested) matches Ok(sel) && sel.len() == requested.len()
            && forall|k: int|
            0 <= k < requested.len() ==> {
                &&& Some(#[trigger] sel[k]) == first_named(metadata.packages@, requested[k]@)
                &&& 0 <= sel[k] < metadata.packages@.len()
                &&& metadata.packages@[sel[k]].name@ == requested[k]@
            },
{
    lemma_named_selection_found(metadata.packages@, requested);
    assert forall|k: int| 0 <= k < requested.len() implies first_named(
        metadata.packages@,
        (#[trigger] requested[k])@,
    ) matches Some(i) && 0 <= i < metadata.packages@.len() && metadata.packages@[i].name@
        == requested[k]@ by {
        lemma_first_named_found(metadata.packages@, requested[k]@);
    }
}

/// A name without a package fails the whole selection, and the error names
/// the first such name.
pub proof fn law_first_missing_name_reported(
    metadata: MetadataInfo,
    requested: Seq<String>,
    k: int,
)
    requires
        0 <= k < requested.len(),
        first_named(metadata.packages@, requested[k]@) is None,
        forall|j: int|
            0 <= j < k ==> first_named(metadata.packages@, (#[trigger] requested[j])@) is Some,
    ensures
        selection(metadata, requested) == Err::<Seq<int>, ResolveErrorView>(
            ResolveErrorView::PackageNotFound(requested[k]@),
        ),
{
    let prefix = requested.take(k);
    assert forall|j: int| 0 <= j < prefix.len() implies first_named(
        metadata.packages@,
        (#[trigger] prefix[j])@,
    ) is Some by {
        assert(prefix[j] == requested[j]);
    }
    lemma_named_selection_found(metadata.packages@, prefix);
    CargoPackageResolver::lemma_selection_error_stays(metadata.packages@, requested, k + 1);
}

proof fn lemma_member_indices(packages: Seq<PackageInfo>, members: Seq<String>)
    ensures
        forall|a: int, b: int|
            0 <= a < b < member_indices(packages, members).len() ==> member_indices(
                packages,
                members,
            )[a] < member_indices(packages, members)[b],
        forall|a: int|
            0 <= a < member_indices(packages, members).len() ==> 0 <= #[trigger] member_indices(
                packages,
                members,
            )[a] < packages.len(),
        forall|p: int|
            0 <= p < packages.len() ==> (member_indices(packages, members).contains(p)
                <==> is_member(members, (#[trigger] packages[p]).id@)),
    decreases packages.len(),
{
    if packages.len() > 0 {
        let before = packages.drop_last();
        lemma_member_indices(before, members);
        let m = member_indices(packages, members);
        let mb = member_indices(before, members);
        assert forall|p: int| 0 <= p < packages.len() implies (m.contains(p) <==> is_member(
            members,
            (#[trigger] packages[p]).id@,
        )) by {
            if p < packages.len() - 1 {
                assert(before[p] == packages[p]);
                if m.contains(p) {
                    let t = choose|t: int| 0 <= t < m.len() && m[t] == p;
                    if t < mb.len() {
                        assert(mb[t] == p);
                    }
                }
                if mb.contains(p) {
                    let t = choose|t: int| 0 <= t < mb.len() && mb[t] == p;
                    assert(m[t] == p);
                }
            } else {
                if is_member(members, packages.last().id@) {
                    assert(m[m.len() - 1] == p);
                } else {
                    if m.contains(p) {
                        let t = choose|t: int| 0 <= t < m.len() && m[t] == p;
                        assert(mb[t] < before.len());
                    }
                }
            }
        }
    }
}

/// Without `--package`, a workspace of several members, or one without a
/// root package whatever its number of members, analyses every member
/// package, each once, in the order Cargo lists the packages; it is an error
/// only where no package is a member.
pub proof fn law_default_selects_all_members(metadata: MetadataInfo)
    requires
        metadata.workspace_members@.len() > 1 || metadata.root_package is None,
    ensures
        selection(metadata, Seq::empty()) is Err <==> forall|p: int|
            0 <= p < metadata.packages@.len() ==> !is_member(
                metadata.workspace_members@,
                (#[trigger] metadata.packages@[p]).id@,
            ),
        selection(metadata, Seq::empty()) matches Ok(sel) ==> {
            &&& forall|a: int, b: int| 0 <= a < b < sel.len() ==> sel[a] < sel[b]
            &&& forall|p: int|
                0 <= p < metadata.packages@.len() ==> (sel.contains(p) <==> is_member(
                    metadata.workspace_members@,
                    (#[trigger] metadata.packages@[p]).id@,
                ))
        },
{
    let packages = metadata.packages@;
    let members = metadata.workspace_members@;
    lemma_member_indices(packages, members);
    let m = member_indices(packages, members);
    if m.len() > 0 {
        assert(m.contains(m[0]));
        assert(is_member(members, packages[m[0]].id@));
    } else {
        assert forall|p: int| 0 <= p < packages.len() implies !is_member(
            members,
            (#[trigger] packages[p]).id@,
        ) by {
            assert(!m.contains(p));
        }
    }
}

/// Resolves the packages of a Cargo workspace from its metadata.
#[derive(Debug, Clone, Copy)]
pub struct CargoPackageResolver;

impl CargoPackageResolver {
    pub fn new() -> (resolver: Self) {
        CargoPackageResolver
    }

    fn find_named(packages: &Vec<PackageInfo>, name: &String) -> (found: Option<usize>)
        ensures
            match found {
                Some(i) => first_named(packages@, name@) == Some(i as int),
                None => first_named(packages@, name@) is None,
            },
    {
        let mut i: usize = 0;
        while i < packages.len()
            invariant
                i <= packages@.len(),
                forall|t: int| 0 <= t < i ==> (#[trigger] packages@[t]).name@ != name@,
            decreases packages@.len() - i,
        {
            if str_eq(packages[i].name.as_str(), name.as_str()) {
                proof {
                    Self::lemma_first_named(packages@, name@, i as int);
                }
                return Some(i);
            }
            i += 1;
        }
        proof {
            Self::lemma_first_named(packages@, name@, packages@.len() as int);
        }
        None
    }

    proof fn lemma_first_named(packages: Seq<PackageInfo>, name: Seq<char>, i: int)
        requires
            0 <= i <= packages.len(),
            forall|t: int| 0 <= t < i ==> (#[trigger] packages[t]).name@ != name,
            i < packages.len() ==> packages[i].name@ == name,
        ensures
            first_named(packages, name) == if i < packages.len() {
                Some(i)
            } else {
                None::<int>
            },
        decreases packages.len(),
    {
        if i > 0 {
            assert forall|t: int| 0 <= t < i - 1 implies (#[trigger] packages.skip(1)[t]).name@
                != name by {
                assert(packages.skip(1)[t] == packages[t + 1]);
            }
            Self::lemma_first_named(packages.skip(1), name, i - 1);
        }
    }

    fn is_workspace_member(members: &Vec<String>, id: &String) -> (member: bool)
        ensures
            member == is_member(members@, id@),
    {
        let mut m: usize = 0;
        while m < members.len()
            invariant
                m <= members@.len(),
                forall|t: int| 0 <= t < m ==> (#[trigger] members@[t])@ != id@,
            decreases members@.len() - m,
        {
            if str_eq(members[m].as_str(), id.as_str()) {
                return true;
            }
            m += 1;
        }
        false
    }

    /// The indices of the packages the analysis covers.
    pub fn select_packages(metadata: &MetadataInfo, requested: &[String]) -> (selected: Result<
        Vec<usize>,
        ResolveError,
    >)
        requires
            metadata_well_formed(*metadata),
        ensures
            match selected {
                Ok(v) => selection(*metadata, requested@) == Ok::<Seq<int>, ResolveErrorView>(
                    v@.map_values(|i: usize| i as int),
                ),
                Err(e) => selection(*metadata, requested@) == Err::<Seq<int>, ResolveErrorView>(
                    e.view_error(),
                ),
            },
            selected matches Ok(v) ==> forall|i: int|
                0 <= i < v@.len() ==> #[trigger] v@[i] < metadata.packages@.len(),
    {
        let packages = &metadata.packages;
        if requested.len() > 0 {
            let mut chosen: Vec<usize> = Vec::new();
            let mut r: usize = 0;
            assert(requested@.take(0) =~= Seq::<String>::empty());
            assert(chosen@.map_values(|i: usize| i as int) =~= Seq::<int>::empty());
            assert(packages@ == metadata.packages@);
            while r < requested.len()
                invariant
                    r <= requested@.len(),
                    packages@ == metadata.packages@,
                    named_selection(packages@, requested@.take(r as int)) == Ok::<
                        Seq<int>,
                        ResolveErrorView,
                    >(chosen@.map_values(|i: usize| i as int)),
                    forall|i: int| 0 <= i < chosen@.len() ==> #[trigger] chosen@[i] < packages@.len(),
                decreases requested@.len() - r,
            {
                assert(requested@.take(r + 1).drop_last() =~= requested@.take(r as int));
                match Self::find_named(packages, &requested[r]) {
                    Some(i) => {
                        proof {
                            Self::lemma_first_named_bound(packages@, requested@[r as int]@);
                        }
                        let ghost before = chosen@;
                        chosen.push(i);
                        assert(chosen@.map_values(|i: usize| i as int) =~= before.map_values(
                            |i: usize| i as int,
                        ).push(i as int));
                    },
                    None => {
                        proof {
                            Self::lemma_selection_error_stays(packages@, requested@, r as int + 1);
                        }
                        let name = requested[r].clone();
                        assert(name@ == requested@[r as int]@);
                        return Err(ResolveError::PackageNotFound(name));
                    },
                }
                r += 1;
            }
            assert(requested@.take(requested@.len() as int) =~= requested@);
            return Ok(chosen);
        }
        match metadata.root_package {
            Some(root) => {
                if metadata.workspace_members.len() <= 1 {
                    let mut chosen: Vec<usize> = Vec::new();
                    chosen.push(root);
                    assert(chosen@.map_values(|i: usize| i as int) =~= seq![root as int]);
                    return Ok(chosen);
                }
            },
            None => {},
        }
        let mut chosen: Vec<usize> = Vec::new();
        let mut j: usize = 0;
        while j < packages.len()
            invariant
                j <= packages@.len(),
                member_indices(packages@.take(j as int), metadata.workspace_members@)
                    == chosen@.map_values(|i: usize| i as int),
                forall|i: int| 0 <= i < chosen@.len() ==> #[trigger] chosen@[i] < j,
            decreases packages@.len() - j,
        {
            assert(packages@.take(j + 1).drop_last() =~= packages@.take(j as int));
            if Self::is_workspace_member(&metadata.workspace_members, &packages[j].id) {
                let ghost before = chosen@;
                chosen.push(j);
                assert(chosen@.map_values(|i: usize| i as int) =~= before.map_values(
                    |i: usize| i as int,
                ).push(j as int));
            }
            j += 1;
        }
        assert(packages@.take(packages@.len() as int) =~= packages@);
        if chosen.len() == 0 {
            return Err(ResolveError::NoWorkspaceMembers);
        }
        Ok(chosen)
    }

    proof fn lemma_first_named_bound(packages: Seq<PackageInfo>, name: Seq<char>)
        ensures
            first_named(packages, name) matches Some(i) ==> 0 <= i < packages.len(),
        decreases packages.len(),
    {
        if packages.len() > 0 {
            Self::lemma_first_named_bound(packages.skip(1), name);
        }
    }

    /// Once a requested name has no package, the selection stays an error.
    proof fn lemma_selection_error_stays(
        packages: Seq<PackageInfo>,
        requested: Seq<String>,
        r: int,
    )
        requires
            0 < r <= requested.len(),
            named_selection(packages, requested.take(r - 1)) is Ok,
            first_named(packages, requested[r - 1]@) is None,
        ensures
            named_selection(packages, requested) == Err::<Seq<int>, ResolveErrorView>(
                ResolveErrorView::PackageNotFound(requested[r - 1]@),
            ),
        decreases requested.len(),
    {
        if requested.len() == r {
            assert(requested.drop_last() =~= requested.take(r - 1));
        } else {
            assert(requested.drop_last().take(r - 1) =~= requested.take(r - 1));
            Self::lemma_selection_error_stays(packages, requested.drop_last(), r);
        }
    }

    /// The context of one package.
    pub fn build_package_context(
        package: &PackageInfo,
        workspace_root: &str,
        include_test_targets: bool,
        exclude_paths: Vec<String>,
    ) -> (context: Result<PackageContext, ResolveError>)
        ensures
            match context {
                Ok(c) => package_context_spec(
                    *package,
                    workspace_root@,
                    include_test_targets,
                    strings_view(exclude_paths@),
                ) == Ok::<ContextView, ResolveErrorView>(context_view(c)),
                Err(e) => package_context_spec(
                    *package,
                    workspace_root@,
                    include_test_targets,
                    strings_view(exclude_paths@),
                ) == Err::<ContextView, ResolveErrorView>(e.view_error()),
            },
    {
        let manifest_dir = match parent_path(package.manifest_path.as_str()) {
            Some(dir) => dir,
            None => {
                return Err(ResolveError::ManifestWithoutParent);
            },
        };
        let mut collector = SourceRootCollector::new(include_test_targets, manifest_dir.as_str());
        collector.collect(package.targets.as_slice());
        let source_roots = collector.finalize();
        Ok(
            PackageContext {
                name: package.name.clone(),
                manifest_dir,
                workspace_root: workspace_root.to_owned(),
                source_roots,
                include_test_targets,
                exclude_paths,
            },
        )
    }

    /// The contexts of the packages the analysis covers, from the workspace's
    /// metadata.
    pub fn resolve_metadata(
        &self,
        metadata: &MetadataInfo,
        requested: &[String],
        include_test_targets: bool,
        exclude_paths: &Vec<String>,
    ) -> (contexts: Result<Vec<PackageContext>, ResolveError>)
        requires
            metadata_well_formed(*metadata),
        ensures
            match contexts {
                Ok(v) => resolution(
                    *metadata,
                    requested@,
                    include_test_targets,
                    strings_view(exclude_paths@),
                ) == Ok::<Seq<ContextView>, ResolveErrorView>(
                    v@.map_values(|c: PackageContext| context_view(c)),
                ),
                Err(e) => resolution(
                    *metadata,
                    requested@,
                    include_test_targets,
                    strings_view(exclude_paths@),
                ) == Err::<Seq<ContextView>, ResolveErrorView>(e.view_error()),
            },
    {
        let selected = match Self::select_packages(metadata, requested) {
            Ok(selected) => selected,
            Err(e) => {
                return Err(e);
            },
        };
        let ghost sel = selected@.map_values(|i: usize| i as int);
        let ghost ex = strings_view(exclude_paths@);
        let mut contexts: Vec<PackageContext> = Vec::new();
        let mut k: usize = 0;
        assert(sel.take(0) =~= Seq::<int>::empty());
        assert(contexts@.map_values(|c: PackageContext| context_view(c)) =~= Seq::<
            ContextView,
        >::empty());
        while k < selected.len()
            invariant
                k <= selected@.len(),
                sel == selected@.map_values(|i: usize| i as int),
                selection(*metadata, requested@) == Ok::<Seq<int>, ResolveErrorView>(sel),
                ex == strings_view(exclude_paths@),
                forall|i: int| 0 <= i < selected@.len() ==> #[trigger] selected@[i] < metadata.packages@.len(),
                contexts_spec(
                    metadata.packages@,
                    sel.take(k as int),
                    metadata.workspace_root@,
                    include_test_targets,
                    ex,
                ) == Ok::<Seq<ContextView>, ResolveErrorView>(
                    contexts@.map_values(|c: PackageContext| context_view(c)),
                ),
            decreases selected@.len() - k,
        {
            assert(sel.take(k + 1).drop_last() =~= sel.take(k as int));
            assert(sel.take(k + 1).last() == selected@[k as int] as int);
            let index = selected[k];
            let excluded = exclude_paths.clone();
            proof {
                Self::lemma_cloned_strings(exclude_paths@, excluded@);
            }
            let context = Self::build_package_context(
                &metadata.packages[index],
                metadata.workspace_root.as_str(),
                include_test_targets,
                excluded,
            );
            match context {
                Ok(c) => {
                    let ghost before = contexts@;
                    contexts.push(c);
                    assert(contexts@.map_values(|c: PackageContext| context_view(c))
                        =~= before.map_values(|c: PackageContext| context_view(c)).push(
                        context_view(c),
                    ));
                },
                Err(e) => {
                    proof {
                        assert(sel.take(k + 1).last() == index as int);
                        assert(contexts_spec(
                            metadata.packages@,
                            sel.take(k + 1),
                            metadata.workspace_root@,
                            include_test_targets,
                            ex,
                        ) == Err::<Seq<ContextView>, ResolveErrorView>(e.view_error()));
                        Self::lemma_contexts_error_stays(
                            metadata.packages@,
                            sel,
                            k as int + 1,
                            metadata.workspace_root@,
                            include_test_targets,
                            ex,
                        );
                    }
                    return Err(e);
                },
            }
            k += 1;
        }
        assert(sel.take(sel.len() as int) =~= sel);
        Ok(contexts)
    }

    proof fn lemma_cloned_strings(original: Seq<String>, copy: Seq<String>)
        requires
            original.len() == copy.len(),
            forall|i: int| 0 <= i < original.len() ==> cloned::<String>(original[i], copy[i]),
        ensures
            strings_view(copy) == strings_view(original),
    {
        assert(strings_view(copy) =~= strings_view(original));
    }

    /// Once a selected package has no context, the resolution stays an error.
    proof fn lemma_contexts_error_stays(
        packages: Seq<PackageInfo>,
        selected: Seq<int>,
        k: int,
        workspace_root: Seq<char>,
        include_test_targets: bool,
        exclude_paths: Seq<Seq<char>>,
    )
        requires
            0 < k <= selected.len(),
            contexts_spec(
                packages,
                selected.take(k),
                workspace_root,
                include_test_targets,
                exclude_paths,
            ) is Err,
        ensures
            contexts_spec(packages, selected, workspace_root, include_test_targets, exclude_paths)
                == contexts_spec(
                packages,
                selected.take(k),
                workspace_root,
                include_test_targets,
                exclude_paths,
            ),
        decreases selected.len(),
    {
        if selected.len() == k {
            assert(selected.take(k) =~= selected);
        } else {
            assert(selected.drop_last().take(k) =~= selected.take(k));
            Self::lemma_contexts_error_stays(
                packages,
                selected.drop_last(),
                k,
                workspace_root,
                include_test_targets,
                exclude_paths,
            );
        }
    }
}

} // verus!
