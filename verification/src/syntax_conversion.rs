//! `syn`'s syntax tree turned into the library's syntax model, one node for
//! one node. Each function here only moves what the model keeps from a `syn`
//! node into the model's node; nothing in this module decides anything.
use vstd::prelude::*;

use quote::ToTokens;
use syn::spanned::Spanned;

use crate::syntax::{
    Arm, Attr, BinOp, CodeBlock, Expression, FnItem, ImplBlock, ImplMember, SourceItem, LocalInit, ModItem,
    Pat, Statement, SyntaxFile,
};

verus! {

/// A parsed file in the model.
#[verifier::external_body]
pub(crate) fn convert_file(file: &syn::File) -> SyntaxFile {
    SyntaxFile { items: convert_items(&file.items) }
}

/// Items in the model, in order.
#[verifier::external_body]
fn convert_items(items: &[syn::Item]) -> Vec<SourceItem> {
    items.iter().map(convert_item).collect()
}

/// One item in the model: functions, `impl` blocks and modules by their
/// parts, every other kind of item as `Other`.
#[verifier::external_body]
fn convert_item(item: &syn::Item) -> SourceItem {
    match item {
        syn::Item::Fn(f) => SourceItem::Fn(fn_item(&f.attrs, f.sig.ident.to_string(), f.sig.ident.span().start().line, f.span().end().line, &f.block)),
        syn::Item::Impl(i) => SourceItem::Impl(ImplBlock { self_type: type_segments(&i.self_ty), attrs: convert_attrs(&i.attrs), members: i.items.iter().map(convert_member).collect() }),
        syn::Item::Mod(m) => SourceItem::Mod(ModItem { name: m.ident.to_string(), attrs: convert_attrs(&m.attrs), content: m.content.as_ref().map(|(_, items)| convert_items(items)) }),
        _ => SourceItem::Other,
    }
}

/// One member of an `impl` block: a method by its parts, anything else as
/// `Other`.
#[verifier::external_body]
fn convert_member(member: &syn::ImplItem) -> ImplMember {
    match member {
        syn::ImplItem::Fn(m) => ImplMember::Fn(fn_item(&m.attrs, m.sig.ident.to_string(), m.sig.ident.span().start().line, m.span().end().line, &m.block)),
        _ => ImplMember::Other,
    }
}

/// A function from its attributes, name, first and last line, and body.
#[verifier::external_body]
fn fn_item(attrs: &[syn::Attribute], name: String, line: usize, end_line: usize, block: &syn::Block) -> FnItem {
    FnItem { name, attrs: convert_attrs(attrs), line, end_line, block: convert_block(block) }
}

/// The path segments of a type, behind references, groups and parentheses;
/// any other type as one segment holding its tokens' text.
#[verifier::external_body]
fn type_segments(ty: &syn::Type) -> Vec<String> {
    match ty {
        syn::Type::Path(p) => p.path.segments.iter().map(|segment| segment.ident.to_string()).collect(),
        syn::Type::Reference(r) => type_segments(&r.elem),
        syn::Type::Group(g) => type_segments(&g.elem),
        syn::Type::Paren(p) => type_segments(&p.elem),
        other => vec![other.to_token_stream().to_string()],
    }
}

/// Attributes by their path segments and the text of their arguments.
#[verifier::external_body]
fn convert_attrs(attrs: &[syn::Attribute]) -> Vec<Attr> {
    attrs.iter().map(|attr| Attr {
        path: attr.path().segments.iter().map(|segment| segment.ident.to_string()).collect(),
        arguments: match &attr.meta {
            syn::Meta::Path(_) => String::new(),
            syn::Meta::List(list) => list.tokens.to_string(),
            syn::Meta::NameValue(name_value) => name_value.value.to_token_stream().to_string(),
        },
    }).collect()
}

/// A block's statements in the model.
#[verifier::external_body]
fn convert_block(block: &syn::Block) -> CodeBlock {
    CodeBlock { stmts: block.stmts.iter().map(convert_stmt).collect() }
}

/// One statement in the model.
#[verifier::external_body]
fn convert_stmt(stmt: &syn::Stmt) -> Statement {
    match stmt {
        syn::Stmt::Local(local) => Statement::Local(local.init.as_ref().map(|init| LocalInit { expr: boxed(&init.expr), diverge: init.diverge.as_ref().map(|(_, e)| boxed(e)) })),
        syn::Stmt::Item(item) => Statement::SourceItem(convert_item(item)),
        syn::Stmt::Expr(expr, _) => Statement::Expression(convert_expr(expr)),
        syn::Stmt::Macro(_) => Statement::Macro,
    }
}

/// An expression in the model, boxed.
#[verifier::external_body]
fn boxed(expr: &syn::Expr) -> Box<Expression> {
    Box::new(convert_expr(expr))
}

/// An optional expression in the model.
#[verifier::external_body]
fn optional(expr: &Option<Box<syn::Expr>>) -> Option<Box<Expression>> {
    expr.as_ref().map(|e| boxed(e))
}

/// A sequence of expressions in the model, in order.
#[verifier::external_body]
fn exprs(items: Vec<&syn::Expr>) -> Vec<Expression> {
    items.into_iter().map(convert_expr).collect()
}

/// An expression in the model: `if` and `match` here, the other forms in
/// `convert_loop` and the functions it hands on to.
#[verifier::external_body]
fn convert_expr(expr: &syn::Expr) -> Expression {
    match expr {
        syn::Expr::If(e) => Expression::If { cond: boxed(&e.cond), then_branch: convert_block(&e.then_branch), else_branch: e.else_branch.as_ref().map(|(_, other)| boxed(other)) },
        syn::Expr::Match(e) => Expression::Match { expr: boxed(&e.expr), arms: e.arms.iter().map(|arm| Arm { guard: arm.guard.as_ref().map(|(_, g)| boxed(g)), body: boxed(&arm.body) }).collect() },
        other => convert_loop(other),
    }
}

/// Loops and blocks in the model.
#[verifier::external_body]
fn convert_loop(expr: &syn::Expr) -> Expression {
    match expr {
        syn::Expr::ForLoop(e) => Expression::ForLoop { pat: match &*e.pat { syn::Pat::Or(o) => Pat::Or(o.cases.len()), _ => Pat::Other }, expr: boxed(&e.expr), body: convert_block(&e.body) },
        syn::Expr::While(e) => Expression::While { cond: boxed(&e.cond), body: convert_block(&e.body) },
        syn::Expr::Loop(e) => Expression::Loop { body: convert_block(&e.body) },
        syn::Expr::Block(e) => Expression::CodeBlock(convert_block(&e.block)),
        syn::Expr::TryBlock(e) => Expression::TryBlock(convert_block(&e.block)),
        other => convert_operation(other),
    }
}

/// Binary operators, calls and closures in the model.
#[verifier::external_body]
fn convert_operation(expr: &syn::Expr) -> Expression {
    match expr {
        syn::Expr::Binary(e) => Expression::Binary { op: match e.op { syn::BinOp::And(_) => BinOp::And, syn::BinOp::Or(_) => BinOp::Or, _ => BinOp::Other }, left: boxed(&e.left), right: boxed(&e.right) },
        syn::Expr::Call(e) => Expression::Call { func: boxed(&e.func), args: exprs(e.args.iter().collect()) },
        syn::Expr::MethodCall(e) => Expression::MethodCall { receiver: boxed(&e.receiver), args: exprs(e.args.iter().collect()) },
        syn::Expr::Closure(e) => Expression::Closure { body: boxed(&e.body) },
        other => convert_suspension(other),
    }
}

/// `async` blocks, `.await` and `?` in the model.
#[verifier::external_body]
fn convert_suspension(expr: &syn::Expr) -> Expression {
    match expr {
        syn::Expr::Async(e) => Expression::Async(convert_block(&e.block)),
        syn::Expr::Await(e) => Expression::Await(boxed(&e.base)),
        syn::Expr::Try(e) => Expression::Try(boxed(&e.expr)),
        other => convert_wrapping(other),
    }
}

/// Unary operators, references, `return`, `break`, parentheses, groups and
/// arrays in the model.
#[verifier::external_body]
fn convert_wrapping(expr: &syn::Expr) -> Expression {
    match expr {
        syn::Expr::Unary(e) => Expression::Unary(boxed(&e.expr)),
        syn::Expr::Reference(e) => Expression::Reference(boxed(&e.expr)),
        syn::Expr::Return(e) => Expression::Return(optional(&e.expr)),
        syn::Expr::Break(e) => Expression::Break(optional(&e.expr)),
        syn::Expr::Paren(e) => Expression::Paren(boxed(&e.expr)),
        syn::Expr::Group(e) => Expression::Group(boxed(&e.expr)),
        syn::Expr::Array(e) => Expression::Array(exprs(e.elems.iter().collect())),
        other => convert_access(other),
    }
}

/// Assignments, field and index access, `let`, macros and ranges in the
/// model.
#[verifier::external_body]
fn convert_access(expr: &syn::Expr) -> Expression {
    match expr {
        syn::Expr::Assign(e) => Expression::Assign { left: boxed(&e.left), right: boxed(&e.right) },
        syn::Expr::Field(e) => Expression::Field(boxed(&e.base)),
        syn::Expr::Index(e) => Expression::Index { expr: boxed(&e.expr), index: boxed(&e.index) },
        syn::Expr::Let(e) => Expression::Let(boxed(&e.expr)),
        syn::Expr::Macro(_) => Expression::Macro,
        syn::Expr::Range(e) => Expression::Range { start: optional(&e.start), end: optional(&e.end) },
        other => convert_aggregate(other),
    }
}

/// Array repetitions, struct literals, tuples, `unsafe` blocks and `yield`
/// in the model; every other form as `Other`.
#[verifier::external_body]
fn convert_aggregate(expr: &syn::Expr) -> Expression {
    match expr {
        syn::Expr::Repeat(e) => Expression::Repeat { expr: boxed(&e.expr), len: boxed(&e.len) },
        syn::Expr::Struct(e) => Expression::Struct { fields: exprs(e.fields.iter().map(|field| &field.expr).collect()), rest: optional(&e.rest) },
        syn::Expr::Tuple(e) => Expression::Tuple(exprs(e.elems.iter().collect())),
        syn::Expr::Unsafe(e) => Expression::Unsafe(convert_block(&e.block)),
        syn::Expr::Yield(e) => Expression::Yield(optional(&e.expr)),
        _ => Expression::Other,
    }
}

} // verus!
