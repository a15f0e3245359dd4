//! The paths the repository's own build tooling works with.
use vstd::prelude::*;

use crate::paths::{join_path, option_view, parent_path, path_join, path_parent};

verus! {

/// The workspace root: the parent of the tooling package's manifest
/// directory, `None` where that directory has no parent.
pub fn workspace_root(tooling_manifest_dir: &str) -> (root: Option<String>)
    ensures
        option_view(root) == path_parent(tooling_manifest_dir@),
{
    parent_path(tooling_manifest_dir)
}

/// `root` with the segments joined onto it one after the other.
pub open spec fn joined_path(root: Seq<char>, segments: Seq<Seq<char>>) -> Seq<char>
    decreases segments.len(),
{
    if segments.len() == 0 {
        root
    } else {
        path_join(joined_path(root, segments.drop_last()), segments.last())
    }
}

/// The characters of each string slice.
pub open spec fn strs_view(segments: Seq<&str>) -> Seq<Seq<char>> {
    segments.map_values(|s: &str| s@)
}

/// A manifest below the workspace root, named by its path segments.
pub fn manifest_path(workspace_root: &str, segments: &[&str]) -> (path: String)
    ensures
        path@ == joined_path(workspace_root@, strs_view(segments@)),
{
    let ghost views = strs_view(segments@);
    let mut path = workspace_root.to_owned();
    let mut i: usize = 0;
    assert(views.take(0) =~= Seq::<Seq<char>>::empty());
    while i < segments.len()
        invariant
            views == strs_view(segments@),
            i <= segments@.len(),
            path@ == joined_path(workspace_root@, views.take(i as int)),
        decreases segments@.len() - i,
    {
        assert(views.take(i + 1).drop_last() =~= views.take(i as int));
        assert(views.take(i + 1).last() == segments@[i as int]@);
        path = join_path(path.as_str(), segments[i]);
        i += 1;
    }
    assert(views.take(segments@.len() as int) =~= views);
    path
}

} // verus!
