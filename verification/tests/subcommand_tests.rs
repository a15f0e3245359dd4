use crap4rust::subcommand::forward_subcommand_args;

fn strings(args: &[&str]) -> Vec<String> {
    args.iter().map(|a| String::from(*a)).collect()
}

#[test]
fn cargo_subcommand_name_is_dropped() {
    let forwarded = forward_subcommand_args(strings(&["cargo-crap4rust", "crap4rust", "--manifest-path", "Cargo.toml"]));
    assert_eq!(forwarded, strings(&["cargo-crap4rust", "--manifest-path", "Cargo.toml"]));
}

#[test]
fn direct_invocation_keeps_its_arguments() {
    let args = strings(&["crap4rust", "--manifest-path", "Cargo.toml"]);
    assert_eq!(forward_subcommand_args(args.clone()), args);
    let only = strings(&["cargo-crap4rust"]);
    assert_eq!(forward_subcommand_args(only.clone()), only);
}
