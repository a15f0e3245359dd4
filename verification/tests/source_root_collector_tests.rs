use crap4rust::source_root_collector::{SourceRootCollector, TargetInfo};

fn target(kind: &str, src_path: &str) -> TargetInfo {
    TargetInfo { kinds: vec![String::from(kind)], src_path: String::from(src_path) }
}

#[test]
fn roots_are_the_sorted_unique_parents_of_selected_targets() {
    let mut collector = SourceRootCollector::new(false, "/work/app");
    collector.collect(&[
        target("bin", "/work/app/src/main.rs"),
        target("lib", "/work/app/src/lib.rs"),
        target("bin", "/work/app/src/bin/tool.rs"),
        target("test", "/work/app/tests/it.rs"),
        target("custom-build", "/work/app/build.rs"),
        target("example", "/work/app/examples/demo.rs"),
    ]);
    let roots = collector.finalize();
    assert_eq!(roots, vec![String::from("/work/app/src"), String::from("/work/app/src/bin")]);
}

#[test]
fn test_targets_add_their_roots_when_included() {
    let mut collector = SourceRootCollector::new(true, "/work/app");
    collector.process_target(&target("test", "/work/app/tests/it.rs"));
    collector.process_target(&target("lib", "/work/app/src/lib.rs"));
    let roots = collector.finalize();
    assert_eq!(roots, vec![String::from("/work/app/src"), String::from("/work/app/tests")]);
}

#[test]
fn no_selected_target_falls_back_to_src() {
    let collector = SourceRootCollector::new(false, "/work/app");
    assert_eq!(collector.finalize(), vec![String::from("/work/app/src")]);
}

#[test]
fn target_selection_by_kind() {
    assert!(SourceRootCollector::is_selected_target(&target("lib", "x.rs"), false));
    assert!(SourceRootCollector::is_selected_target(&target("proc-macro", "x.rs"), false));
    assert!(!SourceRootCollector::is_selected_target(&target("bench", "x.rs"), true));
    assert!(!SourceRootCollector::is_selected_target(&target("custom-build", "x.rs"), true));
    assert!(SourceRootCollector::is_selected_target(&target("test", "x.rs"), true));
    assert!(!SourceRootCollector::is_selected_target(&target("test", "x.rs"), false));
}
