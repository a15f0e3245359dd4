//! A model of Rust source syntax: the parts of a parsed source file that
//! function discovery and cognitive complexity read.
//!
//! Every expression form that the complexity rules look into has a variant of
//! its own; every other form is `Expression::Other`, which scores nothing.
use vstd::prelude::*;

use crate::syntax_conversion::convert_file;

verus! {

/// An attribute, by the segments of its path (`test`, `cfg`, `tokio` and
/// `test`, ...) and the text of its argument tokens (`test` in
/// `#[cfg(test)]`, empty where there are none).
#[derive(Debug, Clone)]
pub struct Attr {
    pub path: Vec<String>,
    pub arguments: String,
}

/// A parsed source file: its top-level items.
#[derive(Debug)]
pub struct SyntaxFile {
    pub items: Vec<SourceItem>,
}

/// A braced block of statements.
#[derive(Debug)]
pub struct CodeBlock {
    pub stmts: Vec<Statement>,
}

/// A statement of a block.
#[derive(Debug)]
pub enum Statement {
    /// A `let` binding, with its initialiser when it has one.
    Local(Option<LocalInit>),
    /// An item declared inside a block.
    SourceItem(SourceItem),
    /// An expression, with or without a trailing semicolon.
    Expression(Expression),
    /// A macro invocation in statement position.
    Macro,
}

/// The initialiser of a `let`: the expression and the `else` branch of a
/// `let ... else`.
#[derive(Debug)]
pub struct LocalInit {
    pub expr: Box<Expression>,
    pub diverge: Option<Box<Expression>>,
}

/// A free function or a method.
#[derive(Debug)]
pub struct FnItem {
    pub name: String,
    pub attrs: Vec<Attr>,
    /// The line of the function's name.
    pub line: usize,
    /// The last line of the whole function.
    pub end_line: usize,
    pub block: CodeBlock,
}

/// An `impl` block, by the path segments of its self type (behind any
/// reference); a self type that is no path is one segment holding its text.
#[derive(Debug)]
pub struct ImplBlock {
    pub self_type: Vec<String>,
    pub attrs: Vec<Attr>,
    pub members: Vec<ImplMember>,
}

/// A member of an `impl` block.
#[derive(Debug)]
pub enum ImplMember {
    Fn(FnItem),
    Other,
}

/// A module; `content` is `None` for an out-of-line `mod name;`.
#[derive(Debug)]
pub struct ModItem {
    pub name: String,
    pub attrs: Vec<Attr>,
    pub content: Option<Vec<SourceItem>>,
}

/// An item: the kinds that discovery and complexity look into, and the rest.
#[derive(Debug)]
pub enum SourceItem {
    Fn(FnItem),
    Impl(ImplBlock),
    Mod(ModItem),
    Other,
}

/// The operator of a binary expression, as far as complexity tells them apart.
#[derive(Debug, Clone, Copy, PartialEq, Eq, Structural)]
pub enum BinOp {
    And,
    Or,
    Other,
}

/// The pattern of a `for` loop: an or-pattern with its number of cases, or
/// any other pattern.
#[derive(Debug, Clone, Copy, PartialEq, Eq, Structural)]
pub enum Pat {
    Or(usize),
    Other,
}

/// A `match` arm: its guard and its body.
#[derive(Debug)]
pub struct Arm {
    pub guard: Option<Box<Expression>>,
    pub body: Box<Expression>,
}

/// An expression.
#[derive(Debug)]
#[allow(inconsistent_fields)]
pub enum Expression {
    If { cond: Box<Expression>, then_branch: CodeBlock, else_branch: Option<Box<Expression>> },
    Match { expr: Box<Expression>, arms: Vec<Arm> },
    ForLoop { pat: Pat, expr: Box<Expression>, body: CodeBlock },
    While { cond: Box<Expression>, body: CodeBlock },
    Loop { body: CodeBlock },
    CodeBlock(CodeBlock),
    Binary { op: BinOp, left: Box<Expression>, right: Box<Expression> },
    Call { func: Box<Expression>, args: Vec<Expression> },
    MethodCall { receiver: Box<Expression>, args: Vec<Expression> },
    Closure { body: Box<Expression> },
    Async(CodeBlock),
    Await(Box<Expression>),
    /// The `?` operator applied to an expression.
    Try(Box<Expression>),
    /// A `try { ... }` block.
    TryBlock(CodeBlock),
    Unary(Box<Expression>),
    Reference(Box<Expression>),
    Return(Option<Box<Expression>>),
    Break(Option<Box<Expression>>),
    Paren(Box<Expression>),
    /// An invisible group, as macro expansion leaves them.
    Group(Box<Expression>),
    Array(Vec<Expression>),
    Assign { left: Box<Expression>, right: Box<Expression> },
    Field(Box<Expression>),
    Index { expr: Box<Expression>, index: Box<Expression> },
    Let(Box<Expression>),
    Macro,
    Range { start: Option<Box<Expression>>, end: Option<Box<Expression>> },
    Repeat { expr: Box<Expression>, len: Box<Expression> },
    Struct { fields: Vec<Expression>, rest: Option<Box<Expression>> },
    Tuple(Vec<Expression>),
    Unsafe(CodeBlock),
    Yield(Option<Box<Expression>>),
    /// Literals, paths, casts and every other form.
    Other,
}

/// Whether every function that discovery can find among the items begins on
/// a line no later than its last: top-level functions, methods of `impl`
/// blocks, and those of inline modules.
pub open spec fn items_lines_in_order(items: Seq<SourceItem>) -> bool
    decreases items,
{
    if items.len() == 0 {
        true
    } else {
        items_lines_in_order(items.drop_last()) && item_lines_in_order(items.last())
    }
}

/// Whether every function that discovery can find in the item begins on a
/// line no later than its last.
pub open spec fn item_lines_in_order(item: SourceItem) -> bool
    decreases item,
{
    match item {
        SourceItem::Fn(f) => f.line <= f.end_line,
        SourceItem::Impl(i) => members_lines_in_order(i.members@),
        SourceItem::Mod(m) => match m.content {
            Some(items) => items_lines_in_order(items@),
            None => true,
        },
        SourceItem::Other => true,
    }
}

/// Whether every method among the members begins on a line no later than
/// its last.
pub open spec fn members_lines_in_order(members: Seq<ImplMember>) -> bool {
    forall|i: int|
        0 <= i < members.len() ==> (#[trigger] members[i] matches ImplMember::Fn(f) ==> f.line
            <= f.end_line)
}

/// The syntax of a Rust source text, as `syn::parse_file` parses it and the
/// model holds it; `None` where the text does not parse.
pub uninterp spec fn parsed_source(text: Seq<char>) -> Option<SyntaxFile>;

/// `syn::parse_file`: parses a Rust source text. Its result, in the model, is
/// named, not described; where it fails, the error's text is handed back
/// and not described either. A function's line is where its name starts and
/// its last line is where its whole span ends; with proc-macro2's
/// `span-locations`, a span joined from the first to the last token of an
/// item of one file covers every token between, its name among them, so no
/// function begins after it ends.
#[verifier::external_body]
pub fn parse_source(text: &str) -> (parsed: Result<SyntaxFile, String>)
    ensures
        match parsed {
            Ok(file) => parsed_source(text@) == Some(file),
            Err(_) => parsed_source(text@) is None,
        },
        parsed matches Ok(file) ==> items_lines_in_order(file.items@),
{
    match syn::parse_file(text) {
        Ok(file) => Ok(convert_file(&file)),
        Err(error) => Err(error.to_string()),
    }
}

} // verus!
