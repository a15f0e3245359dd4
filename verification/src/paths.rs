//! The standard library's path operations that discovery relies on.
//!
//! Each operation is the `std::path` function itself, called on the path
//! that the string spells; what it returns is named, not restated, so the
//! logic built on top is proved for whatever `std::path` answers. `std::path`
//! follows the path conventions of the platform the crate is built for; the
//! names stand for its answers there.
use vstd::prelude::*;

verus! {

/// The characters of each string of a sequence.
pub open spec fn strings_view(v: Seq<String>) -> Seq<Seq<char>> {
    v.map_values(|s: String| s@)
}

/// The characters of an optional string.
pub open spec fn option_view(o: Option<String>) -> Option<Seq<char>> {
    match o {
        Some(s) => Some(s@),
        None => None,
    }
}

/// What `Path::strip_prefix` returns for these two paths.
pub uninterp spec fn path_strip_prefix(path: Seq<char>, base: Seq<char>) -> Option<Seq<char>>;

/// What `Path::parent` returns for this path.
pub uninterp spec fn path_parent(path: Seq<char>) -> Option<Seq<char>>;

/// The components that `Path::components` yields for this path.
pub uninterp spec fn path_components(path: Seq<char>) -> Seq<Seq<char>>;

/// What `Path::file_stem` returns for this path.
pub uninterp spec fn path_file_stem(path: Seq<char>) -> Option<Seq<char>>;

/// What `Path::extension` returns for this path.
pub uninterp spec fn path_extension(path: Seq<char>) -> Option<Seq<char>>;

/// What `Path::join` returns for this path and this segment.
pub uninterp spec fn path_join(path: Seq<char>, segment: Seq<char>) -> Seq<char>;

/// `std::path::Path::strip_prefix`: the rest of `path` below `base`, or
/// `None` where `base` is not a prefix of it by whole components. Its result
/// is named, not described; as its documentation says, the rest joined onto
/// `base` yields `path` again (paths comparing by their components).
#[verifier::external_body]
pub(crate) fn strip_path_prefix(path: &str, base: &str) -> (rest: Option<String>)
    ensures
        option_view(rest) == path_strip_prefix(path@, base@),
        rest matches Some(r) ==> path_components(path_join(base@, r@)) == path_components(path@),
{
    match std::path::Path::new(path).strip_prefix(base) {
        Ok(rest) => Some(rest.to_string_lossy().into_owned()),
        Err(_) => None,
    }
}

/// `std::path::Path::parent`: the path without its last component, `None`
/// for a root or an empty path. Its result is named, not described.
#[verifier::external_body]
pub(crate) fn parent_path(path: &str) -> (parent: Option<String>)
    ensures
        option_view(parent) == path_parent(path@),
{
    match std::path::Path::new(path).parent() {
        Some(parent) => Some(parent.to_string_lossy().into_owned()),
        None => None,
    }
}

/// `std::path::Path::components`: the components of the path, each as the
/// text `as_os_str` gives it. Its result is named, not described.
#[verifier::external_body]
pub(crate) fn components_of(path: &str) -> (components: Vec<String>)
    ensures
        strings_view(components@) == path_components(path@),
{
    let mut components = Vec::new();
    for component in std::path::Path::new(path).components() {
        components.push(component.as_os_str().to_string_lossy().into_owned());
    }
    components
}

/// `std::path::Path::file_stem`: the last component without its extension.
/// Its result is named, not described.
#[verifier::external_body]
pub(crate) fn file_stem_of(path: &str) -> (stem: Option<String>)
    ensures
        option_view(stem) == path_file_stem(path@),
{
    match std::path::Path::new(path).file_stem() {
        Some(stem) => Some(stem.to_string_lossy().into_owned()),
        None => None,
    }
}

/// `std::path::Path::extension`: the extension of the last component,
/// without its dot. Its result is named, not described.
#[verifier::external_body]
pub(crate) fn extension_of(path: &str) -> (extension: Option<String>)
    ensures
        option_view(extension) == path_extension(path@),
{
    match std::path::Path::new(path).extension() {
        Some(extension) => Some(extension.to_string_lossy().into_owned()),
        None => None,
    }
}

/// `std::path::Path::join`: `segment` appended to `path` as a further
/// component. Its result is named, not described.
#[verifier::external_body]
pub(crate) fn join_path(path: &str, segment: &str) -> (joined: String)
    ensures
        joined@ == path_join(path@, segment@),
{
    std::path::Path::new(path).join(segment).to_string_lossy().into_owned()
}

} // verus!
