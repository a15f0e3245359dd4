use crap4rust::file_walker::{parsed_file, ParsedFile};
use crap4rust::package_context::PackageContext;
use crap4rust::source_function_discovery::{
    discover_functions, try_discover_functions, FunctionDiscovery, SourceFunctionDiscovery,
};
use crap4rust::syntax::{CodeBlock, Expression, FnItem, SourceItem, Statement, SyntaxFile};

fn probe(source_roots: Vec<String>) -> PackageContext {
    PackageContext {
        name: String::from("probe"),
        manifest_dir: String::from("/tmp/probe"),
        workspace_root: String::from("/tmp/probe"),
        source_roots,
        include_test_targets: false,
        exclude_paths: vec![],
    }
}

fn if_true_fn(name: &str, line: usize) -> FnItem {
    // pub fn <name>() { if true {} }
    FnItem {
        name: String::from(name),
        attrs: vec![],
        line,
        end_line: line,
        block: CodeBlock {
            stmts: vec![Statement::Expression(Expression::If {
                cond: Box::new(Expression::Other),
                then_branch: CodeBlock { stmts: vec![] },
                else_branch: None,
            })],
        },
    }
}

#[test]
fn discover_finds_public_function_in_source_root() {
    let package = probe(vec![String::from("/tmp/probe/src")]);
    let lib = ParsedFile {
        path: String::from("/tmp/probe/src/lib.rs"),
        canonical_path: String::from("/tmp/probe/src/lib.rs"),
        syntax: SyntaxFile { items: vec![SourceItem::Fn(if_true_fn("risky", 1))] },
    };
    let discovery = SourceFunctionDiscovery::new();
    let functions = discovery.discover(&package, &[vec![lib]]).expect("discover functions");
    assert_eq!(functions.len(), 1);
    assert_eq!(functions[0].name, "risky");
    assert_eq!(functions[0].complexity, 1);
    assert_eq!(functions[0].relative_file, "src/lib.rs");
    assert_eq!(functions[0].path_key, "/tmp/probe/src/lib.rs");
}

#[test]
fn discover_missing_source_root_returns_empty() {
    let package = probe(vec![String::from("/tmp/probe/src")]);
    let discovery = SourceFunctionDiscovery::new();
    let functions = discovery.discover(&package, &[vec![]]).expect("discover functions");
    assert!(functions.is_empty());
}

#[test]
fn discover_takes_source_roots_in_order() {
    let package = probe(vec![String::from("/tmp/probe/src"), String::from("/tmp/probe/src/bin")]);
    let lib = ParsedFile {
        path: String::from("/tmp/probe/src/lib.rs"),
        canonical_path: String::from("/tmp/probe/src/lib.rs"),
        syntax: SyntaxFile { items: vec![SourceItem::Fn(if_true_fn("first", 3))] },
    };
    let tool = ParsedFile {
        path: String::from("/tmp/probe/src/bin/tool.rs"),
        canonical_path: String::from("/tmp/probe/src/bin/tool.rs"),
        syntax: SyntaxFile { items: vec![SourceItem::Fn(if_true_fn("main", 1))] },
    };
    let functions = discover_functions(&package, &[vec![lib], vec![tool]]);
    assert_eq!(functions.len(), 2);
    assert_eq!(functions[0].name, "first");
    assert_eq!(functions[1].name, "tool::main");
    assert_eq!(functions[1].relative_file, "src/bin/tool.rs");
}

#[test]
fn try_discover_agrees_with_discover() {
    let package = probe(vec![String::from("/tmp/probe/src")]);
    let lib = ParsedFile {
        path: String::from("/tmp/probe/src/lib.rs"),
        canonical_path: String::from("/tmp/probe/src/lib.rs"),
        syntax: SyntaxFile { items: vec![SourceItem::Fn(if_true_fn("risky", 1))] },
    };
    let found = try_discover_functions(&package, &[vec![lib]]).unwrap();
    assert_eq!(found.len(), 1);
}

#[test]
fn parsed_source_text_is_discovered_with_its_lines() {
    let package = probe(vec![String::from("/tmp/probe/src")]);
    let text = "pub fn risky() {\n    if true {}\n}\n\npub struct Store;\n\nimpl Store {\n    pub fn get(&self) -> u32 {\n        match 1 { _ => 0 }\n    }\n    #[test]\n    fn check() {}\n}\n\n#[cfg(test)]\nmod tests {\n    fn helper() {}\n}\n";
    let file = parsed_file("/tmp/probe/src/lib.rs", "/tmp/probe/src/lib.rs", text).expect("parse");
    assert_eq!(file.path, "/tmp/probe/src/lib.rs");
    let functions = discover_functions(&package, &[vec![file]]);
    assert_eq!(functions.len(), 2);
    assert_eq!(functions[0].name, "risky");
    assert_eq!(functions[0].line, 1);
    assert_eq!(functions[0].end_line, 3);
    assert_eq!(functions[0].complexity, 1);
    assert_eq!(functions[1].name, "Store::get");
    assert_eq!(functions[1].line, 8);
    assert_eq!(functions[1].end_line, 10);
    assert_eq!(functions[1].complexity, 1);
}

#[test]
fn unparsable_file_is_a_failure() {
    let failure = parsed_file("/tmp/probe/src/lib.rs", "/tmp/probe/src/lib.rs", "fn broken( {").unwrap_err();
    assert!(!failure.message.is_empty());
}
