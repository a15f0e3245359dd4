use crap4rust::llvm_cov_builder::{
    coverage_file_name, coverage_output_dir, coverage_output_path, LlvmCovBuilder,
};
use crap4rust::package_context::PackageContext;

fn package(name: &str) -> PackageContext {
    PackageContext {
        name: String::from(name),
        manifest_dir: format!("/work/{name}"),
        workspace_root: String::from("/work"),
        source_roots: vec![],
        include_test_targets: false,
        exclude_paths: vec![],
    }
}

#[test]
fn builder_new_constructs_without_panicking() {
    let builder = LlvmCovBuilder::new("out.json");
    assert_eq!(builder.program(), "cargo");
    assert_eq!(builder.args(), &["llvm-cov", "--json", "--output-path", "out.json"]);
}

#[test]
fn config_and_packages_extend_the_arguments_in_order() {
    let builder = LlvmCovBuilder::new("out.json")
        .apply_config(Some("/work/Cargo.toml"), Some("demo-feature"), true, true)
        .add_packages(&[package("app-core"), package("app-validation")]);
    assert_eq!(
        builder.args(),
        &[
            "llvm-cov",
            "--json",
            "--output-path",
            "out.json",
            "--manifest-path",
            "/work/Cargo.toml",
            "--features",
            "demo-feature",
            "--all-features",
            "--no-default-features",
            "--package",
            "app-core",
            "--package",
            "app-validation",
        ]
    );
}

#[test]
fn absent_options_add_no_arguments() {
    let builder = LlvmCovBuilder::new("o.json").apply_config(None, None, false, false);
    assert_eq!(builder.args().len(), 4);
}

#[test]
fn coverage_file_names_join_underscored_package_names() {
    assert_eq!(coverage_file_name(&[package("single_fixture")]), "single_fixture-coverage.json");
    assert_eq!(
        coverage_file_name(&[package("app-core"), package("app-validation")]),
        "app_core__app_validation-coverage.json"
    );
    assert_eq!(
        coverage_file_name(&[package("root-app"), package("helper-member")]),
        "root_app__helper_member-coverage.json"
    );
}

#[test]
fn coverage_output_goes_below_target() {
    let dir = coverage_output_dir("/work");
    assert_eq!(dir, "/work/target/crap4rust");
    assert_eq!(
        coverage_output_path(&dir, &[package("root-app")]),
        "/work/target/crap4rust/root_app-coverage.json"
    );
}
