use crap4rust::workspace_paths::{manifest_path, workspace_root};

#[test]
fn workspace_root_is_the_parent_directory() {
    assert_eq!(workspace_root("/work/repo/xtask"), Some(String::from("/work/repo")));
    assert_eq!(workspace_root("/"), None);
}

#[test]
fn manifest_path_joins_segments_onto_the_root() {
    assert_eq!(manifest_path("/work/repo", &["Cargo.toml"]), "/work/repo/Cargo.toml");
    assert_eq!(manifest_path("/work/repo", &["core", "Cargo.toml"]), "/work/repo/core/Cargo.toml");
}
