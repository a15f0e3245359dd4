use crap4rust::package_context::PackageContext;
use crap4rust::project_report::{
    count_verdicts, exit_status, project_verdict, scope_name, strict_fails,
};
use crap4rust::verdict::Verdict;

fn package(name: &str) -> PackageContext {
    PackageContext {
        name: String::from(name),
        manifest_dir: String::new(),
        workspace_root: String::new(),
        source_roots: vec![],
        include_test_targets: false,
        exclude_paths: vec![],
    }
}

#[test]
fn warn_only_always_exits_zero() {
    assert_eq!(exit_status(true, true), 0);
    assert_eq!(exit_status(true, false), 0);
}

#[test]
fn failing_project_exits_one() {
    assert_eq!(exit_status(false, true), 1);
    assert_eq!(exit_status(false, false), 0);
}

#[test]
fn project_verdict_follows_the_worst_function() {
    assert_eq!(project_verdict(true, &[Verdict::Clean]), Verdict::Crappy);
    assert_eq!(project_verdict(false, &[Verdict::Clean, Verdict::Crappy]), Verdict::Warn);
    assert_eq!(project_verdict(false, &[Verdict::Warn, Verdict::Clean]), Verdict::Warn);
    assert_eq!(project_verdict(false, &[Verdict::Clean, Verdict::Clean]), Verdict::Clean);
    assert_eq!(project_verdict(false, &[]), Verdict::Clean);
}

#[test]
fn strict_mode_fails_on_one_crappy_function() {
    assert!(strict_fails(1));
    assert!(!strict_fails(0));
}

#[test]
fn verdicts_are_counted() {
    let verdicts = [Verdict::Crappy, Verdict::Clean, Verdict::Crappy, Verdict::Warn];
    assert_eq!(count_verdicts(&verdicts, Verdict::Crappy), 2);
    assert_eq!(count_verdicts(&verdicts, Verdict::Warn), 1);
    assert_eq!(count_verdicts(&[], Verdict::Clean), 0);
}

#[test]
fn scope_name_joins_package_names() {
    assert_eq!(scope_name(&[package("app-core"), package("app-validation")]), "app-core, app-validation");
    assert_eq!(scope_name(&[package("single-fixture")]), "single-fixture");
}
