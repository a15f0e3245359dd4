use crap4rust::cargo_package_resolver::{
    CargoPackageResolver, MetadataInfo, PackageInfo, ResolveError,
};
use crap4rust::source_root_collector::TargetInfo;

fn lib_package(name: &str) -> PackageInfo {
    PackageInfo {
        id: format!("path+file:///work/{name}#0.1.0"),
        name: String::from(name),
        manifest_path: format!("/work/{name}/Cargo.toml"),
        targets: vec![TargetInfo {
            kinds: vec![String::from("lib")],
            src_path: format!("/work/{name}/src/lib.rs"),
        }],
    }
}

fn workspace(members: &[&str], root_package: Option<usize>) -> MetadataInfo {
    let packages = vec![lib_package("app-core"), lib_package("app-validation"), lib_package("serde-helper")];
    let workspace_members = members
        .iter()
        .map(|name| format!("path+file:///work/{name}#0.1.0"))
        .collect();
    MetadataInfo { packages, workspace_members, workspace_root: String::from("/work"), root_package }
}

#[test]
fn named_packages_are_selected_in_the_order_named() {
    let metadata = workspace(&["app-core", "app-validation"], None);
    let requested = vec![String::from("app-validation"), String::from("app-core")];
    let selected = CargoPackageResolver::select_packages(&metadata, &requested).unwrap();
    assert_eq!(selected, vec![1, 0]);
}

#[test]
fn unknown_package_is_an_error_naming_it() {
    let metadata = workspace(&["app-core", "app-validation"], None);
    let requested = vec![String::from("app-core"), String::from("does-not-exist")];
    let error = CargoPackageResolver::select_packages(&metadata, &requested).unwrap_err();
    assert_eq!(error, ResolveError::PackageNotFound(String::from("does-not-exist")));
    assert_eq!(error.message(), "package does-not-exist was not found in the manifest");
}

#[test]
fn workspace_without_selected_package_selects_all_workspace_members() {
    let metadata = workspace(&["app-core", "app-validation"], None);
    let selected = CargoPackageResolver::select_packages(&metadata, &[]).unwrap();
    assert_eq!(selected, vec![0, 1]);
}

#[test]
fn root_workspace_with_several_members_selects_them_all() {
    let metadata = workspace(&["app-validation", "app-core"], Some(0));
    let selected = CargoPackageResolver::select_packages(&metadata, &[]).unwrap();
    assert_eq!(selected, vec![0, 1]);
}

#[test]
fn single_package_manifest_selects_its_root_package() {
    let metadata = workspace(&["app-validation"], Some(1));
    let selected = CargoPackageResolver::select_packages(&metadata, &[]).unwrap();
    assert_eq!(selected, vec![1]);
}

#[test]
fn workspace_without_members_is_an_error() {
    let metadata = workspace(&[], None);
    let error = CargoPackageResolver::select_packages(&metadata, &[]).unwrap_err();
    assert_eq!(error, ResolveError::NoWorkspaceMembers);
    assert_eq!(error.message(), "manifest contains no workspace member packages");
}

#[test]
fn resolve_builds_contexts_with_source_roots() {
    let metadata = workspace(&["app-core", "app-validation"], None);
    let resolver = CargoPackageResolver::new();
    let excludes = vec![String::from("src/generated")];
    let contexts = resolver
        .resolve_metadata(&metadata, &[String::from("app-core")], true, &excludes)
        .unwrap();
    assert_eq!(contexts.len(), 1);
    let context = &contexts[0];
    assert_eq!(context.name, "app-core");
    assert_eq!(context.manifest_dir, "/work/app-core");
    assert_eq!(context.workspace_root, "/work");
    assert_eq!(context.source_roots, vec![String::from("/work/app-core/src")]);
    assert!(context.include_test_targets);
    assert_eq!(context.exclude_paths, excludes);
}

#[test]
fn package_without_targets_falls_back_to_src() {
    let mut metadata = workspace(&["app-core"], Some(0));
    metadata.packages[0].targets.clear();
    let contexts = CargoPackageResolver::new().resolve_metadata(&metadata, &[], false, &vec![]).unwrap();
    assert_eq!(contexts[0].source_roots, vec![String::from("/work/app-core/src")]);
}

#[test]
fn manifest_without_parent_is_an_error() {
    let mut metadata = workspace(&["app-core"], Some(0));
    metadata.packages[0].manifest_path = String::from("/");
    let error = CargoPackageResolver::new().resolve_metadata(&metadata, &[], false, &vec![]).unwrap_err();
    assert_eq!(error, ResolveError::ManifestWithoutParent);
    assert_eq!(error.message(), "package manifest has no parent directory");
}
