use crap4rust::complexity::{checked_cognitive_complexity, cognitive_complexity};
use crap4rust::syntax::{parse_source, CodeBlock, SourceItem};

fn parse_fn_block(source: &str) -> CodeBlock {
    let source = format!("fn f() {{ {} }}", source);
    let file = parse_source(&source).expect("parse source");
    match file.items.into_iter().next() {
        Some(SourceItem::Fn(item_fn)) => item_fn.block,
        _ => panic!("expected function"),
    }
}

#[test]
fn empty_function_returns_zero() {
    let block = parse_fn_block("");
    assert_eq!(cognitive_complexity(&block), 0);
}

#[test]
fn single_if_scores_one() {
    let block = parse_fn_block("if x { }");
    assert_eq!(cognitive_complexity(&block), 1);
}

#[test]
fn nested_if_scores_three() {
    let block = parse_fn_block("if x { if y { } }");
    assert_eq!(cognitive_complexity(&block), 3);
}

#[test]
fn match_three_arms_scores_one() {
    let block = parse_fn_block("match x { 1 => {}, 2 => {}, 3 => {} }");
    assert_eq!(cognitive_complexity(&block), 1);
}

#[test]
fn for_loop_scores_one() {
    let block = parse_fn_block("for _ in 0..10 { }");
    assert_eq!(cognitive_complexity(&block), 1);
}

#[test]
fn while_loop_scores_one() {
    let block = parse_fn_block("while true { }");
    assert_eq!(cognitive_complexity(&block), 1);
}

#[test]
fn if_with_logical_and_condition_scores_two() {
    let block = parse_fn_block("if a && b { }");
    assert_eq!(cognitive_complexity(&block), 2);
}

#[test]
fn if_with_logical_and_or_condition_scores_three() {
    let block = parse_fn_block("if a && b || c { }");
    assert_eq!(cognitive_complexity(&block), 3);
}

#[test]
fn try_block_scores_one() {
    let block = parse_fn_block("let _ = try { 1 };");
    assert_eq!(cognitive_complexity(&block), 1);
}

#[test]
fn loop_scores_one() {
    let block = parse_fn_block("loop { break; }");
    assert_eq!(cognitive_complexity(&block), 1);
}

#[test]
fn while_with_logical_and_condition_scores_two() {
    let block = parse_fn_block("while a && b { }");
    assert_eq!(cognitive_complexity(&block), 2);
}

#[test]
fn while_with_bare_condition_matches_logical_condition_base_cost() {
    let bare = parse_fn_block("while a { }");
    let logical = parse_fn_block("while a && b { }");
    let bare_score = cognitive_complexity(&bare);
    let logical_score = cognitive_complexity(&logical);
    assert_eq!(logical_score - bare_score, 1);
}

#[test]
fn match_guard_with_logical_and_condition_scores_two() {
    let block = parse_fn_block("match x { n if a && b => 1, _ => 0 };");
    assert_eq!(cognitive_complexity(&block), 2);
}

#[test]
fn try_operator_adds_nothing() {
    let block = parse_fn_block("let value = parse(input)?; if value { }");
    assert_eq!(cognitive_complexity(&block), 1);
}

#[test]
fn try_operator_around_a_branch_scores_the_branch_only() {
    let block = parse_fn_block("(if a { x } else { y })?;");
    assert_eq!(cognitive_complexity(&block), 1);
}

#[test]
fn else_if_chain_stays_at_the_same_depth() {
    // 1 for the first if, 1 for the else-if at the same depth, 1 + 1 for
    // the if nested in the final else.
    let block = parse_fn_block("if a { } else if b { } else { if c { } }");
    assert_eq!(cognitive_complexity(&block), 4);
}

#[test]
fn or_pattern_in_for_costs_one_per_extra_case() {
    let block = parse_fn_block("for A | B | C in items { }");
    assert_eq!(cognitive_complexity(&block), 3);
}

#[test]
fn nested_function_item_is_scored_at_the_same_depth() {
    let block = parse_fn_block("if x { fn g() { if y { } } }");
    assert_eq!(cognitive_complexity(&block), 3);
}

#[test]
fn macros_score_nothing() {
    let block = parse_fn_block("println!(\"{}\", if a { 1 } else { 2 });");
    assert_eq!(cognitive_complexity(&block), 0);
}

#[test]
fn checked_complexity_reports_the_score() {
    let block = parse_fn_block("if a && b { }");
    assert_eq!(checked_cognitive_complexity(&block), Some(2));
}

#[test]
fn unparsable_source_is_refused() {
    assert!(parse_source("fn f( {").is_err());
}

#[test]
fn each_level_of_nesting_adds_one_per_construct() {
    // Three ifs at depths 0, 1 and 2 cost 1 + 2 + 3.
    let block = parse_fn_block("if a { if b { if c { } } }");
    assert_eq!(cognitive_complexity(&block), 6);
}
