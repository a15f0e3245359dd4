use crap4rust::impl_collector::{is_test_attrs, qualified_name, ImplCollector};
use crap4rust::package_context::PackageContext;
use crap4rust::syntax::{Attr, CodeBlock, Expression, FnItem, ImplBlock, ImplMember, Statement};

fn attr(path: &str, arguments: &str) -> Attr {
    Attr { path: path.split("::").map(String::from).collect(), arguments: String::from(arguments) }
}

#[test]
fn is_test_attrs_detects_test_attribute() {
    // #[test]
    let attrs = vec![attr("test", "")];
    assert!(is_test_attrs(&attrs));
}

#[test]
fn is_test_attrs_detects_cfg_test_attribute() {
    // #[cfg(test)]
    let attrs = vec![attr("cfg", "test")];
    assert!(is_test_attrs(&attrs));
}

#[test]
fn is_test_attrs_returns_false_for_regular_attributes() {
    // #[allow(dead_code)]
    let attrs = vec![attr("allow", "dead_code")];
    assert!(!is_test_attrs(&attrs));
}

#[test]
fn is_test_attrs_returns_false_for_empty_attrs() {
    let attrs: Vec<Attr> = vec![];
    assert!(!is_test_attrs(&attrs));
}

#[test]
fn cfg_with_other_predicate_is_not_test_only() {
    let attrs = vec![attr("cfg", "feature = \"x\""), attr("inline", "")];
    assert!(!is_test_attrs(&attrs));
}

#[test]
fn qualified_name_joins_every_segment() {
    let prefix = vec![String::from("net"), String::from("transport")];
    let inline = vec![String::from("retry")];
    let name = qualified_name(&prefix, &inline, Some("Client"), "send");
    assert_eq!(name, "net::transport::retry::Client::send");
    let plain = qualified_name(&[], &[], None, "risky");
    assert_eq!(plain, "risky");
}

fn method(name: &str, attrs: Vec<Attr>, line: usize) -> ImplMember {
    ImplMember::Fn(FnItem {
        name: String::from(name),
        attrs,
        line,
        end_line: line + 3,
        block: CodeBlock {
            stmts: vec![Statement::Expression(Expression::If {
                cond: Box::new(Expression::Other),
                then_branch: CodeBlock { stmts: vec![] },
                else_branch: None,
            })],
        },
    })
}

#[test]
fn visit_impl_names_methods_after_the_type_and_skips_tests() {
    let package = PackageContext {
        name: String::from("probe"),
        manifest_dir: String::from("/work/probe"),
        workspace_root: String::from("/work"),
        source_roots: vec![String::from("/work/probe/src")],
        include_test_targets: false,
        exclude_paths: vec![],
    };
    let block = ImplBlock {
        self_type: vec![String::from("crate"), String::from("store"), String::from("Store")],
        attrs: vec![],
        members: vec![
            method("get", vec![], 5),
            ImplMember::Other,
            method("helper", vec![attr("test", "")], 12),
            method("put", vec![], 20),
        ],
    };
    let prefix = vec![String::from("store")];
    let found = ImplCollector::visit_impl(&package, &block, "/work/probe/src/store.rs", "src/store.rs", &prefix, &[]);
    assert_eq!(found.len(), 2);
    assert_eq!(found[0].name, "store::Store::get");
    assert_eq!(found[0].line, 5);
    assert_eq!(found[0].end_line, 8);
    assert_eq!(found[0].complexity, 1);
    assert_eq!(found[0].package_name, "probe");
    assert_eq!(found[1].name, "store::Store::put");
    assert_eq!(found[1].relative_file, "src/store.rs");
    assert_eq!(found[1].path_key, "/work/probe/src/store.rs");
}
