use crap4rust::file_walker::{normalize_path, FileWalker, ParsedFile};
use crap4rust::package_context::PackageContext;
use crap4rust::syntax::{Attr, CodeBlock, Expression, FnItem, SourceItem, ModItem, Statement, SyntaxFile};
use crap4rust::test_module_registry::TestModuleRegistry;

fn package(include_test_targets: bool, exclude_paths: Vec<String>) -> PackageContext {
    PackageContext {
        name: String::from("fixture"),
        manifest_dir: String::from("/work/fixture"),
        workspace_root: String::from("/work"),
        source_roots: vec![String::from("/work/fixture/src")],
        include_test_targets,
        exclude_paths,
    }
}

fn cfg_test() -> Attr {
    Attr { path: vec![String::from("cfg")], arguments: String::from("test") }
}

fn function(name: &str, line: usize) -> FnItem {
    FnItem {
        name: String::from(name),
        attrs: vec![],
        line,
        end_line: line + 2,
        block: CodeBlock {
            stmts: vec![Statement::Expression(Expression::While {
                cond: Box::new(Expression::Other),
                body: CodeBlock { stmts: vec![] },
            })],
        },
    }
}

fn parsed(path: &str, items: Vec<SourceItem>) -> ParsedFile {
    ParsedFile {
        path: String::from(path),
        canonical_path: String::from(path),
        syntax: SyntaxFile { items },
    }
}

#[test]
fn relative_file_strips_the_base_directory() {
    assert_eq!(FileWalker::relative_file("/work/fixture", "/work/fixture/src/lib.rs"), "src/lib.rs");
    assert_eq!(FileWalker::relative_file("/work/fixture", "/elsewhere/lib.rs"), "/elsewhere/lib.rs");
}

#[test]
fn relative_files_outside_shipped_code_are_not_selected() {
    assert!(!FileWalker::is_selected_relative_file("examples/demo.rs", true));
    assert!(!FileWalker::is_selected_relative_file("benches/speed.rs", true));
    assert!(!FileWalker::is_selected_relative_file("build.rs", true));
    assert!(!FileWalker::is_selected_relative_file("tests/support.rs", false));
    assert!(FileWalker::is_selected_relative_file("tests/support.rs", true));
    assert!(FileWalker::is_selected_relative_file("src/lib.rs", false));
}

#[test]
fn source_files_are_judged_below_the_manifest_directory() {
    assert!(FileWalker::is_selected_source_file("/work/fixture", "/work/fixture/src/lib.rs", false));
    assert!(!FileWalker::is_selected_source_file("/work/fixture", "/work/fixture/benches/b.rs", true));
    assert!(!FileWalker::is_selected_source_file("/work/fixture", "/work/fixture/examples/e.rs", true));
    assert!(!FileWalker::is_selected_source_file("/work/fixture", "/work/fixture/tests/t.rs", false));
    assert!(FileWalker::is_selected_source_file("/work/fixture", "/work/fixture/tests/t.rs", true));
    assert!(!FileWalker::is_selected_source_file("/work/fixture", "/work/fixture/build.rs", false));
    assert!(!FileWalker::is_selected_source_file("/work/fixture", "/work/fixture/tools/build.rs", false));
    assert!(FileWalker::is_selected_source_file("/work/fixture", "/elsewhere/src/lib.rs", false));
}

#[test]
fn exclude_paths_cover_the_directory_and_the_path_itself() {
    let excludes = vec![String::from("src/scenarios")];
    assert!(FileWalker::is_excluded_relative_file("src/scenarios/a.rs", &excludes));
    assert!(FileWalker::is_excluded_relative_file("src/scenarios", &excludes));
    assert!(!FileWalker::is_excluded_relative_file("src/scenarios_more.rs", &excludes));
    let windows = vec![String::from("tests\\")];
    assert!(FileWalker::is_excluded_relative_file("tests/validation_support.rs", &windows));
    assert!(!FileWalker::is_excluded_relative_file("src/lib.rs", &windows));
}

#[test]
fn module_prefix_follows_directories_and_file_stem() {
    assert_eq!(FileWalker::module_prefix("/w/src", "/w/src/a/b/c.rs"), vec!["a", "b", "c"]);
    assert_eq!(FileWalker::module_prefix("/w/src", "/w/src/a/mod.rs"), vec!["a"]);
    assert!(FileWalker::module_prefix("/w/src", "/w/src/lib.rs").is_empty());
    assert!(FileWalker::module_prefix("/w/src", "/w/src/main.rs").is_empty());
}

#[test]
fn normalize_path_turns_backslashes_into_slashes() {
    assert_eq!(normalize_path("C:\\work\\src\\lib.rs"), "C:/work/src/lib.rs");
    assert_eq!(normalize_path("/work/src/lib.rs"), "/work/src/lib.rs");
}

#[test]
fn is_selected_combines_every_rule() {
    let pkg = package(false, vec![String::from("src/generated")]);
    let walker = FileWalker::new(&pkg);
    assert!(walker.is_selected("/work/fixture/src/lib.rs", "/work/fixture", "/work/fixture/src/lib.rs"));
    assert!(!walker.is_selected(
        "/work/fixture/src/generated/out.rs",
        "/work/fixture",
        "/work/fixture/src/generated/out.rs"
    ));
    assert!(!walker.is_selected("/work/fixture/tests/it.rs", "/work/fixture", "/work/fixture/tests/it.rs"));
}

#[test]
fn file_based_test_module_is_excluded() {
    // src/lib.rs: mod target; #[cfg(test)] mod tests;
    let lib = parsed(
        "/work/fixture/src/lib.rs",
        vec![
            SourceItem::Mod(ModItem { name: String::from("target"), attrs: vec![], content: None }),
            SourceItem::Mod(ModItem { name: String::from("tests"), attrs: vec![cfg_test()], content: None }),
        ],
    );
    let target = parsed("/work/fixture/src/target.rs", vec![SourceItem::Fn(function("shipped_risky", 5))]);
    let tests = parsed("/work/fixture/src/tests.rs", vec![SourceItem::Fn(function("test_only_helper", 5))]);
    let files = vec![lib, target, tests];
    let registry = TestModuleRegistry::build(&files);
    assert!(registry.is_excluded("/work/fixture/src/tests.rs"));
    assert!(registry.is_excluded("/work/fixture/src/tests/helpers.rs"));
    assert!(!registry.is_excluded("/work/fixture/src/target.rs"));

    let pkg = package(false, vec![]);
    let walker = FileWalker::new(&pkg);
    let functions = walker.process_source_root("/work/fixture/src", &files);
    assert_eq!(functions.len(), 1);
    assert_eq!(functions[0].name, "target::shipped_risky");
    assert_eq!(functions[0].relative_file, "src/target.rs");
    assert_eq!(functions[0].complexity, 1);
}

#[test]
fn inline_test_module_is_excluded() {
    // pub fn shipped_risky() {...}  #[cfg(test)] mod tests { fn test_only_helper() {...} }
    let lib = parsed(
        "/work/fixture/src/lib.rs",
        vec![
            SourceItem::Fn(function("shipped_risky", 1)),
            SourceItem::Mod(ModItem {
                name: String::from("tests"),
                attrs: vec![cfg_test()],
                content: Some(vec![SourceItem::Fn(function("test_only_helper", 9))]),
            }),
        ],
    );
    let pkg = package(false, vec![]);
    let walker = FileWalker::new(&pkg);
    let functions = walker.process_source_root("/work/fixture/src", &[lib]);
    assert_eq!(functions.len(), 1);
    assert_eq!(functions[0].name, "shipped_risky");
}

#[test]
fn inline_modules_prefix_function_names() {
    let lib = parsed(
        "/work/fixture/src/net.rs",
        vec![SourceItem::Mod(ModItem {
            name: String::from("retry"),
            attrs: vec![],
            content: Some(vec![SourceItem::Fn(function("backoff", 3)), SourceItem::Other]),
        })],
    );
    let pkg = package(false, vec![]);
    let walker = FileWalker::new(&pkg);
    let functions = walker.process_source_root("/work/fixture/src", &[lib]);
    assert_eq!(functions.len(), 1);
    assert_eq!(functions[0].name, "net::retry::backoff");
    assert_eq!(functions[0].line, 3);
    assert_eq!(functions[0].end_line, 5);
}

#[test]
fn test_functions_are_not_recorded() {
    let mut test_fn = function("check", 1);
    test_fn.attrs.push(Attr { path: vec![String::from("test")], arguments: String::new() });
    let pkg = package(false, vec![]);
    let record = FileWalker::record_function(&pkg, &test_fn, None, "/k", "src/lib.rs", &[], &[]);
    assert!(record.is_none());
    let kept = FileWalker::record_function(&pkg, &function("keep", 1), Some("Widget"), "/k", "src/lib.rs", &[], &[]);
    assert_eq!(kept.unwrap().name, "Widget::keep");
}

#[test]
fn visit_items_and_visit_module_name_functions_by_their_modules() {
    let pkg = package(false, vec![]);
    let syntax = SyntaxFile {
        items: vec![
            SourceItem::Fn(function("top", 1)),
            SourceItem::Mod(ModItem {
                name: String::from("inner"),
                attrs: vec![],
                content: Some(vec![SourceItem::Fn(function("nested", 4))]),
            }),
            SourceItem::Mod(ModItem { name: String::from("elsewhere"), attrs: vec![], content: None }),
        ],
    };
    let prefix = vec![String::from("util")];
    let functions = FileWalker::visit_items(&pkg, &syntax, "/k/util.rs", "src/util.rs", &prefix, &[]);
    let names: Vec<&str> = functions.iter().map(|f| f.name.as_str()).collect();
    assert_eq!(names, vec!["util::top", "util::inner::nested"]);

    let module = ModItem {
        name: String::from("deep"),
        attrs: vec![],
        content: Some(vec![SourceItem::Fn(function("leaf", 9))]),
    };
    let outer = vec![String::from("outer")];
    let found = FileWalker::visit_module(&pkg, &module, "/k/util.rs", "src/util.rs", &prefix, &outer);
    assert_eq!(found.len(), 1);
    assert_eq!(found[0].name, "util::outer::deep::leaf");
    let one = FileWalker::visit_item(&pkg, &SourceItem::Fn(function("solo", 2)), "/k", "src/lib.rs", &[], &[]);
    assert_eq!(one[0].name, "solo");
}

#[test]
fn try_process_source_root_agrees_with_process_source_root() {
    let lib = parsed("/work/fixture/src/lib.rs", vec![SourceItem::Fn(function("shipped", 1))]);
    let pkg = package(false, vec![]);
    let walker = FileWalker::new(&pkg);
    let checked = walker.try_process_source_root("/work/fixture/src", &[lib]).unwrap();
    assert_eq!(checked.len(), 1);
    assert_eq!(checked[0].name, "shipped");
    assert_eq!(checked[0].path_key, "/work/fixture/src/lib.rs");
}

#[test]
fn relative_file_joins_back_onto_the_base() {
    let relative = FileWalker::relative_file("/ws/app", "/ws/app/src/lib.rs");
    assert_eq!(std::path::Path::new("/ws/app").join(&relative), std::path::Path::new("/ws/app/src/lib.rs"));
    assert_eq!(FileWalker::relative_file("/ws/app", "/ws/application/x.rs"), "/ws/application/x.rs");
}
