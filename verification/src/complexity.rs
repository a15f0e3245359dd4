//! Cognitive complexity of a function body.
//!
//! Every `if`, `match`, `for`, `while`, `loop` and `try` block costs one plus
//! the depth at which it is nested; each `&&` or `||` in a condition or a
//! match guard costs one more; an or-pattern in a `for` costs one per extra
//! case. The `?` operator, macros and every other form cost nothing by
//! themselves: only what they contain is scored.
use vstd::prelude::*;

use crate::syntax::{Arm, BinOp, CodeBlock, Expression, ImplMember, SourceItem, Pat, Statement};

verus! {

/// One for a short-circuit operator, nothing for any other.
pub open spec fn logical_op_score(op: BinOp) -> nat {
    match op {
        BinOp::And => 1,
        BinOp::Or => 1,
        BinOp::Other => 0,
    }
}

/// The short-circuit operators of a condition, seen through parentheses and
/// invisible groups.
pub open spec fn condition_score(e: Expression) -> nat
    decreases e,
{
    match e {
        Expression::Binary { op, left, right } => logical_op_score(op) + condition_score(*left)
            + condition_score(*right),
        Expression::Paren(inner) => condition_score(*inner),
        Expression::Group(inner) => condition_score(*inner),
        _ => 0,
    }
}

/// One per case of an or-pattern beyond the first.
pub open spec fn pattern_score(p: Pat) -> nat {
    match p {
        Pat::Or(cases) => if cases >= 1 {
            ((cases - 1) as u32) as nat
        } else {
            0
        },
        Pat::Other => 0,
    }
}

/// The score of a block whose statements sit at nesting depth `n`.
pub open spec fn block_score(b: CodeBlock, n: nat) -> nat
    decreases b,
{
    stmts_score(b.stmts@, n)
}

pub open spec fn stmts_score(s: Seq<Statement>, n: nat) -> nat
    decreases s,
{
    if s.len() == 0 {
        0
    } else {
        stmts_score(s.drop_last(), n) + stmt_score(s.last(), n)
    }
}

pub open spec fn stmt_score(s: Statement, n: nat) -> nat
    decreases s,
{
    match s {
        Statement::Local(init) => match init {
            Some(li) => expr_score(*li.expr, n) + match li.diverge {
                Some(d) => expr_score(*d, n),
                None => 0,
            },
            None => 0,
        },
        Statement::SourceItem(item) => match item {
            SourceItem::Fn(f) => block_score(f.block, n),
            SourceItem::Mod(m) => match m.content {
                Some(items) => items_score(items@, n),
                None => 0,
            },
            _ => 0,
        },
        Statement::Expression(e) => expr_score(e, n),
        Statement::Macro => 0,
    }
}

/// Items declared inside an inline module that itself stands in a block.
pub open spec fn items_score(s: Seq<SourceItem>, n: nat) -> nat
    decreases s,
{
    if s.len() == 0 {
        0
    } else {
        items_score(s.drop_last(), n) + nested_item_score(s.last(), n)
    }
}

pub open spec fn nested_item_score(item: SourceItem, n: nat) -> nat
    decreases item,
{
    match item {
        SourceItem::Fn(f) => block_score(f.block, n),
        SourceItem::Impl(i) => members_score(i.members@, n),
        SourceItem::Mod(m) => match m.content {
            Some(items) => items_score(items@, n),
            None => 0,
        },
        SourceItem::Other => 0,
    }
}

pub open spec fn members_score(s: Seq<ImplMember>, n: nat) -> nat
    decreases s,
{
    if s.len() == 0 {
        0
    } else {
        members_score(s.drop_last(), n) + member_score(s.last(), n)
    }
}

pub open spec fn exprs_score(s: Seq<Expression>, n: nat) -> nat
    decreases s,
{
    if s.len() == 0 {
        0
    } else {
        exprs_score(s.drop_last(), n) + expr_score(s.last(), n)
    }
}

pub open spec fn arms_score(s: Seq<Arm>, n: nat) -> nat
    decreases s,
{
    if s.len() == 0 {
        0
    } else {
        arms_score(s.drop_last(), n) + arm_score(s.last(), n)
    }
}

/// The short-circuit operators of a match guard.
pub open spec fn guard_score(guard: Option<Box<Expression>>) -> nat {
    match guard {
        Some(g) => condition_score(*g),
        None => 0,
    }
}

/// A method of an impl block nested in a function body is scored like a
/// function.
pub open spec fn member_score(m: ImplMember, n: nat) -> nat
    decreases m,
{
    match m {
        ImplMember::Fn(f) => block_score(f.block, n),
        ImplMember::Other => 0,
    }
}

/// The `else` of an `if`: an `else if` continues the chain at the same depth,
/// any other `else` is nested one deeper.
pub open spec fn else_score(else_branch: Option<Box<Expression>>, n: nat) -> nat
    decreases else_branch,
{
    match else_branch {
        Some(other) => if (*other) is If {
            expr_score(*other, n)
        } else {
            expr_score(*other, n + 1)
        },
        None => 0,
    }
}

/// A match arm: the short-circuit operators of its guard and the score of
/// its body.
pub open spec fn arm_score(arm: Arm, n: nat) -> nat
    decreases arm,
{
    guard_score(arm.guard) + expr_score(*arm.body, n)
}

pub open spec fn opt_expr_score(e: Option<Box<Expression>>, n: nat) -> nat
    decreases e,
{
    match e {
        Some(inner) => expr_score(*inner, n),
        None => 0,
    }
}

/// The score of an expression at nesting depth `n`.
pub open spec fn expr_score(e: Expression, n: nat) -> nat
    decreases e,
{
    match e {
        Expression::If { cond, then_branch, else_branch } => 1 + n + condition_score(*cond)
            + block_score(then_branch, n + 1) + else_score(else_branch, n),
        Expression::Match { expr, arms } => 1 + n + expr_score(*expr, n) + arms_score(arms@, n + 1),
        Expression::ForLoop { pat, expr, body } => 1 + n + expr_score(*expr, n) + pattern_score(pat)
            + block_score(body, n + 1),
        Expression::While { cond, body } => 1 + n + condition_score(*cond) + block_score(body, n + 1),
        Expression::Loop { body } => 1 + n + block_score(body, n + 1),
        Expression::CodeBlock(b) => block_score(b, n),
        Expression::Binary { op, left, right } => logical_op_score(op) + expr_score(*left, n)
            + expr_score(*right, n),
        Expression::Call { func, args } => expr_score(*func, n) + exprs_score(args@, n),
        Expression::MethodCall { receiver, args } => expr_score(*receiver, n) + exprs_score(args@, n),
        Expression::Closure { body } => expr_score(*body, n),
        Expression::Async(b) => block_score(b, n),
        Expression::Await(inner) => expr_score(*inner, n),
        Expression::Try(inner) => expr_score(*inner, n),
        Expression::TryBlock(b) => 1 + n + block_score(b, n + 1),
        Expression::Unary(inner) => expr_score(*inner, n),
        Expression::Reference(inner) => expr_score(*inner, n),
        Expression::Return(inner) => opt_expr_score(inner, n),
        Expression::Break(inner) => opt_expr_score(inner, n),
        Expression::Paren(inner) => expr_score(*inner, n),
        Expression::Group(_) => 0,
        Expression::Array(elems) => exprs_score(elems@, n),
        Expression::Assign { left, right } => expr_score(*left, n) + expr_score(*right, n),
        Expression::Field(inner) => expr_score(*inner, n),
        Expression::Index { expr, index } => expr_score(*expr, n) + expr_score(*index, n),
        Expression::Let(inner) => expr_score(*inner, n),
        Expression::Macro => 0,
        Expression::Range { start, end } => opt_expr_score(start, n) + opt_expr_score(end, n),
        Expression::Repeat { expr, len } => expr_score(*expr, n) + expr_score(*len, n),
        Expression::Struct { fields, rest } => exprs_score(fields@, n) + opt_expr_score(rest, n),
        Expression::Tuple(elems) => exprs_score(elems@, n),
        Expression::Unsafe(b) => block_score(b, n),
        Expression::Yield(inner) => opt_expr_score(inner, n),
        Expression::Other => 0,
    }
}

/// A score as a `u32`, or `None` where it does not fit.
pub open spec fn within_u32(x: nat) -> Option<u32> {
    if x <= u32::MAX {
        Some(x as u32)
    } else {
        None
    }
}

fn sum_within(a: Option<u32>, b: Option<u32>, Ghost(x): Ghost<nat>, Ghost(y): Ghost<nat>) -> (r:
    Option<u32>)
    requires
        a == within_u32(x),
        b == within_u32(y),
    ensures
        r == within_u32(x + y),
{
    match (a, b) {
        (Some(u), Some(v)) => u.checked_add(v),
        _ => None,
    }
}

proof fn lemma_stmts_prefix(s: Seq<Statement>, i: int, n: nat)
    requires
        0 <= i <= s.len(),
    ensures
        stmts_score(s.subrange(0, i), n) <= stmts_score(s, n),
    decreases s.len(),
{
    if i < s.len() {
        lemma_stmts_prefix(s.drop_last(), i, n);
        assert(s.drop_last().subrange(0, i) =~= s.subrange(0, i));
    } else {
        assert(s.subrange(0, i) =~= s);
    }
}

proof fn lemma_items_prefix(s: Seq<SourceItem>, i: int, n: nat)
    requires
        0 <= i <= s.len(),
    ensures
        items_score(s.subrange(0, i), n) <= items_score(s, n),
    decreases s.len(),
{
    if i < s.len() {
        lemma_items_prefix(s.drop_last(), i, n);
        assert(s.drop_last().subrange(0, i) =~= s.subrange(0, i));
    } else {
        assert(s.subrange(0, i) =~= s);
    }
}

proof fn lemma_members_prefix(s: Seq<ImplMember>, i: int, n: nat)
    requires
        0 <= i <= s.len(),
    ensures
        members_score(s.subrange(0, i), n) <= members_score(s, n),
    decreases s.len(),
{
    if i < s.len() {
        lemma_members_prefix(s.drop_last(), i, n);
        assert(s.drop_last().subrange(0, i) =~= s.subrange(0, i));
    } else {
        assert(s.subrange(0, i) =~= s);
    }
}

proof fn lemma_exprs_prefix(s: Seq<Expression>, i: int, n: nat)
    requires
        0 <= i <= s.len(),
    ensures
        exprs_score(s.subrange(0, i), n) <= exprs_score(s, n),
    decreases s.len(),
{
    if i < s.len() {
        lemma_exprs_prefix(s.drop_last(), i, n);
        assert(s.drop_last().subrange(0, i) =~= s.subrange(0, i));
    } else {
        assert(s.subrange(0, i) =~= s);
    }
}

proof fn lemma_arms_prefix(s: Seq<Arm>, i: int, n: nat)
    requires
        0 <= i <= s.len(),
    ensures
        arms_score(s.subrange(0, i), n) <= arms_score(s, n),
    decreases s.len(),
{
    if i < s.len() {
        lemma_arms_prefix(s.drop_last(), i, n);
        assert(s.drop_last().subrange(0, i) =~= s.subrange(0, i));
    } else {
        assert(s.subrange(0, i) =~= s);
    }
}

fn exec_condition(e: &Expression) -> (r: Option<u32>)
    ensures
        r == within_u32(condition_score(*e)),
    decreases e,
{
    match e {
        Expression::Binary { op, left, right } => {
            let own: u32 = match op {
                BinOp::And => 1,
                BinOp::Or => 1,
                BinOp::Other => 0,
            };
            let l = exec_condition(left);
            let r = exec_condition(right);
            let lr = sum_within(
                l,
                r,
                Ghost(condition_score(**left)),
                Ghost(condition_score(**right)),
            );
            sum_within(
                Some(own),
                lr,
                Ghost(logical_op_score(*op)),
                Ghost(condition_score(**left) + condition_score(**right)),
            )
        },
        Expression::Paren(inner) => exec_condition(inner),
        Expression::Group(inner) => exec_condition(inner),
        _ => Some(0),
    }
}

fn exec_pattern(p: &Pat) -> (r: u32)
    ensures
        r as nat == pattern_score(*p),
{
    match p {
        Pat::Or(cases) => if *cases >= 1 {
            (*cases - 1) as u32
        } else {
            0
        },
        Pat::Other => 0,
    }
}

fn exec_block(b: &CodeBlock, n: u32) -> (r: Option<u32>)
    ensures
        r == within_u32(block_score(*b, n as nat)),
    decreases b,
{
    let ghost s = b.stmts@;
    let mut acc: u32 = 0;
    let mut i: usize = 0;
    while i < b.stmts.len()
        invariant
            s == b.stmts@,
            i <= s.len(),
            acc as nat == stmts_score(s.subrange(0, i as int), n as nat),
        decreases s.len() - i,
    {
        assert(decreases_to!(b => s[i as int]));
        let one = exec_stmt(&b.stmts[i], n);
        assert(s.subrange(0, i + 1).drop_last() =~= s.subrange(0, i as int));
        let next = sum_within(
            Some(acc),
            one,
            Ghost(stmts_score(s.subrange(0, i as int), n as nat)),
            Ghost(stmt_score(s[i as int], n as nat)),
        );
        match next {
            Some(t) => {
                acc = t;
            },
            None => {
                proof {
                    lemma_stmts_prefix(s, i + 1, n as nat);
                }
                return None;
            },
        }
        i += 1;
    }
    assert(s.subrange(0, s.len() as int) =~= s);
    Some(acc)
}

fn exec_stmt(st: &Statement, n: u32) -> (r: Option<u32>)
    ensures
        r == within_u32(stmt_score(*st, n as nat)),
    decreases st,
{
    match st {
        Statement::Local(init) => match init {
            Some(li) => {
                let a = exec_expr(&li.expr, n);
                let b = exec_opt(&li.diverge, n);
                sum_within(
                    a,
                    b,
                    Ghost(expr_score(*li.expr, n as nat)),
                    Ghost(opt_expr_score(li.diverge, n as nat)),
                )
            },
            None => Some(0),
        },
        Statement::SourceItem(item) => match item {
            SourceItem::Fn(f) => exec_block(&f.block, n),
            SourceItem::Mod(m) => match &m.content {
                Some(items) => exec_items(items, n),
                None => Some(0),
            },
            _ => Some(0),
        },
        Statement::Expression(e) => exec_expr(e, n),
        Statement::Macro => Some(0),
    }
}

fn exec_items(v: &Vec<SourceItem>, n: u32) -> (r: Option<u32>)
    ensures
        r == within_u32(items_score(v@, n as nat)),
    decreases v,
{
    let ghost s = v@;
    let mut acc: u32 = 0;
    let mut i: usize = 0;
    while i < v.len()
        invariant
            s == v@,
            i <= s.len(),
            acc as nat == items_score(s.subrange(0, i as int), n as nat),
        decreases s.len() - i,
    {
        assert(decreases_to!(v => s[i as int]));
        let one = exec_nested_item(&v[i], n);
        assert(s.subrange(0, i + 1).drop_last() =~= s.subrange(0, i as int));
        let next = sum_within(
            Some(acc),
            one,
            Ghost(items_score(s.subrange(0, i as int), n as nat)),
            Ghost(nested_item_score(s[i as int], n as nat)),
        );
        match next {
            Some(t) => {
                acc = t;
            },
            None => {
                proof {
                    lemma_items_prefix(s, i + 1, n as nat);
                }
                return None;
            },
        }
        i += 1;
    }
    assert(s.subrange(0, s.len() as int) =~= s);
    Some(acc)
}

fn exec_nested_item(item: &SourceItem, n: u32) -> (r: Option<u32>)
    ensures
        r == within_u32(nested_item_score(*item, n as nat)),
    decreases item,
{
    match item {
        SourceItem::Fn(f) => exec_block(&f.block, n),
        SourceItem::Impl(i) => exec_members(&i.members, n),
        SourceItem::Mod(m) => match &m.content {
            Some(items) => exec_items(items, n),
            None => Some(0),
        },
        SourceItem::Other => Some(0),
    }
}

fn exec_members(v: &Vec<ImplMember>, n: u32) -> (r: Option<u32>)
    ensures
        r == within_u32(members_score(v@, n as nat)),
    decreases v,
{
    let ghost s = v@;
    let mut acc: u32 = 0;
    let mut i: usize = 0;
    while i < v.len()
        invariant
            s == v@,
            i <= s.len(),
            acc as nat == members_score(s.subrange(0, i as int), n as nat),
        decreases s.len() - i,
    {
        assert(decreases_to!(v => s[i as int]));
        let one = match &v[i] {
            ImplMember::Fn(f) => exec_block(&f.block, n),
            ImplMember::Other => Some(0),
        };
        assert(s.subrange(0, i + 1).drop_last() =~= s.subrange(0, i as int));
        let next = sum_within(
            Some(acc),
            one,
            Ghost(members_score(s.subrange(0, i as int), n as nat)),
            Ghost(member_score(s[i as int], n as nat)),
        );
        match next {
            Some(t) => {
                acc = t;
            },
            None => {
                proof {
                    lemma_members_prefix(s, i + 1, n as nat);
                }
                return None;
            },
        }
        i += 1;
    }
    assert(s.subrange(0, s.len() as int) =~= s);
    Some(acc)
}

fn exec_exprs(v: &Vec<Expression>, n: u32) -> (r: Option<u32>)
    ensures
        r == within_u32(exprs_score(v@, n as nat)),
    decreases v,
{
    let ghost s = v@;
    let mut acc: u32 = 0;
    let mut i: usize = 0;
    while i < v.len()
        invariant
            s == v@,
            i <= s.len(),
            acc as nat == exprs_score(s.subrange(0, i as int), n as nat),
        decreases s.len() - i,
    {
        assert(decreases_to!(v => s[i as int]));
        let one = exec_expr(&v[i], n);
        assert(s.subrange(0, i + 1).drop_last() =~= s.subrange(0, i as int));
        let next = sum_within(
            Some(acc),
            one,
            Ghost(exprs_score(s.subrange(0, i as int), n as nat)),
            Ghost(expr_score(s[i as int], n as nat)),
        );
        match next {
            Some(t) => {
                acc = t;
            },
            None => {
                proof {
                    lemma_exprs_prefix(s, i + 1, n as nat);
                }
                return None;
            },
        }
        i += 1;
    }
    assert(s.subrange(0, s.len() as int) =~= s);
    Some(acc)
}

fn exec_arms(v: &Vec<Arm>, n: u32) -> (r: Option<u32>)
    ensures
        r == within_u32(arms_score(v@, n as nat)),
    decreases v,
{
    let ghost s = v@;
    let mut acc: u32 = 0;
    let mut i: usize = 0;
    while i < v.len()
        invariant
            s == v@,
            i <= s.len(),
            acc as nat == arms_score(s.subrange(0, i as int), n as nat),
        decreases s.len() - i,
    {
        assert(decreases_to!(v => s[i as int]));
        let one = exec_arm(&v[i], n);
        assert(s.subrange(0, i + 1).drop_last() =~= s.subrange(0, i as int));
        let next = sum_within(
            Some(acc),
            one,
            Ghost(arms_score(s.subrange(0, i as int), n as nat)),
            Ghost(arm_score(s[i as int], n as nat)),
        );
        match next {
            Some(t) => {
                acc = t;
            },
            None => {
                proof {
                    lemma_arms_prefix(s, i + 1, n as nat);
                }
                return None;
            },
        }
        i += 1;
    }
    assert(s.subrange(0, s.len() as int) =~= s);
    Some(acc)
}

fn exec_arm(arm: &Arm, n: u32) -> (r: Option<u32>)
    ensures
        r == within_u32(arm_score(*arm, n as nat)),
    decreases arm,
{
    let g = match &arm.guard {
        Some(g) => exec_condition(g),
        None => Some(0),
    };
    let b = exec_expr(&arm.body, n);
    sum_within(g, b, Ghost(guard_score(arm.guard)), Ghost(expr_score(*arm.body, n as nat)))
}

fn exec_opt(e: &Option<Box<Expression>>, n: u32) -> (r: Option<u32>)
    ensures
        r == within_u32(opt_expr_score(*e, n as nat)),
    decreases e,
{
    match e {
        Some(inner) => exec_expr(inner, n),
        None => Some(0),
    }
}

/// `1 + n`, the cost of a construct that nests at depth `n`.
fn nesting_cost(n: u32) -> (r: Option<u32>)
    ensures
        r == within_u32(1 + n as nat),
{
    n.checked_add(1)
}

fn exec_expr(e: &Expression, n: u32) -> (r: Option<u32>)
    ensures
        r == within_u32(expr_score(*e, n as nat)),
    decreases e,
{
    let ghost nn = n as nat;
    match e {
        Expression::If { cond, then_branch, else_branch } => {
            let base = nesting_cost(n);
            if base.is_none() {
                return None;
            }
            let c = exec_condition(cond);
            let t = exec_block(then_branch, n + 1);
            let el = match else_branch {
                Some(other) => match &**other {
                    Expression::If { .. } => exec_expr(other, n),
                    _ => exec_expr(other, n + 1),
                },
                None => Some(0),
            };
            let bc = sum_within(base, c, Ghost(1 + nn), Ghost(condition_score(**cond)));
            let bct = sum_within(
                bc,
                t,
                Ghost(1 + nn + condition_score(**cond)),
                Ghost(block_score(*then_branch, nn + 1)),
            );
            sum_within(
                bct,
                el,
                Ghost(1 + nn + condition_score(**cond) + block_score(*then_branch, nn + 1)),
                Ghost(else_score(*else_branch, nn)),
            )
        },
        Expression::Match { expr, arms } => {
            let base = nesting_cost(n);
            if base.is_none() {
                return None;
            }
            let s = exec_expr(expr, n);
            let a = exec_arms(arms, n + 1);
            let bs = sum_within(base, s, Ghost(1 + nn), Ghost(expr_score(**expr, nn)));
            sum_within(
                bs,
                a,
                Ghost(1 + nn + expr_score(**expr, nn)),
                Ghost(arms_score(arms@, nn + 1)),
            )
        },
        Expression::ForLoop { pat, expr, body } => {
            let base = nesting_cost(n);
            if base.is_none() {
                return None;
            }
            let s = exec_expr(expr, n);
            let p = exec_pattern(pat);
            let b = exec_block(body, n + 1);
            let bs = sum_within(base, s, Ghost(1 + nn), Ghost(expr_score(**expr, nn)));
            let bsp = sum_within(
                bs,
                Some(p),
                Ghost(1 + nn + expr_score(**expr, nn)),
                Ghost(pattern_score(*pat)),
            );
            sum_within(
                bsp,
                b,
                Ghost(1 + nn + expr_score(**expr, nn) + pattern_score(*pat)),
                Ghost(block_score(*body, nn + 1)),
            )
        },
        Expression::While { cond, body } => {
            let base = nesting_cost(n);
            if base.is_none() {
                return None;
            }
            let c = exec_condition(cond);
            let b = exec_block(body, n + 1);
            let bc = sum_within(base, c, Ghost(1 + nn), Ghost(condition_score(**cond)));
            sum_within(
                bc,
                b,
                Ghost(1 + nn + condition_score(**cond)),
                Ghost(block_score(*body, nn + 1)),
            )
        },
        Expression::Loop { body } => {
            let base = nesting_cost(n);
            if base.is_none() {
                return None;
            }
            let b = exec_block(body, n + 1);
            sum_within(base, b, Ghost(1 + nn), Ghost(block_score(*body, nn + 1)))
        },
        Expression::TryBlock(body) => {
            let base = nesting_cost(n);
            if base.is_none() {
                return None;
            }
            let b = exec_block(body, n + 1);
            sum_within(base, b, Ghost(1 + nn), Ghost(block_score(*body, nn + 1)))
        },
        Expression::CodeBlock(b) => exec_block(b, n),
        Expression::Async(b) => exec_block(b, n),
        Expression::Unsafe(b) => exec_block(b, n),
        Expression::Binary { op, left, right } => {
            let own: u32 = match op {
                BinOp::And => 1,
                BinOp::Or => 1,
                BinOp::Other => 0,
            };
            let l = exec_expr(left, n);
            let r = exec_expr(right, n);
            let lr = sum_within(
                l,
                r,
                Ghost(expr_score(**left, nn)),
                Ghost(expr_score(**right, nn)),
            );
            sum_within(
                Some(own),
                lr,
                Ghost(logical_op_score(*op)),
                Ghost(expr_score(**left, nn) + expr_score(**right, nn)),
            )
        },
        Expression::Call { func, args } => {
            let f = exec_expr(func, n);
            let a = exec_exprs(args, n);
            sum_within(f, a, Ghost(expr_score(**func, nn)), Ghost(exprs_score(args@, nn)))
        },
        Expression::MethodCall { receiver, args } => {
            let f = exec_expr(receiver, n);
            let a = exec_exprs(args, n);
            sum_within(f, a, Ghost(expr_score(**receiver, nn)), Ghost(exprs_score(args@, nn)))
        },
        Expression::Closure { body } => exec_expr(body, n),
        Expression::Await(inner) => exec_expr(inner, n),
        Expression::Try(inner) => exec_expr(inner, n),
        Expression::Unary(inner) => exec_expr(inner, n),
        Expression::Reference(inner) => exec_expr(inner, n),
        Expression::Paren(inner) => exec_expr(inner, n),
        Expression::Field(inner) => exec_expr(inner, n),
        Expression::Let(inner) => exec_expr(inner, n),
        Expression::Return(inner) => exec_opt(inner, n),
        Expression::Break(inner) => exec_opt(inner, n),
        Expression::Yield(inner) => exec_opt(inner, n),
        Expression::Array(elems) => exec_exprs(elems, n),
        Expression::Tuple(elems) => exec_exprs(elems, n),
        Expression::Assign { left, right } => {
            let l = exec_expr(left, n);
            let r = exec_expr(right, n);
            sum_within(l, r, Ghost(expr_score(**left, nn)), Ghost(expr_score(**right, nn)))
        },
        Expression::Index { expr, index } => {
            let l = exec_expr(expr, n);
            let r = exec_expr(index, n);
            sum_within(l, r, Ghost(expr_score(**expr, nn)), Ghost(expr_score(**index, nn)))
        },
        Expression::Repeat { expr, len } => {
            let l = exec_expr(expr, n);
            let r = exec_expr(len, n);
            sum_within(l, r, Ghost(expr_score(**expr, nn)), Ghost(expr_score(**len, nn)))
        },
        Expression::Range { start, end } => {
            let l = exec_opt(start, n);
            let r = exec_opt(end, n);
            sum_within(l, r, Ghost(opt_expr_score(*start, nn)), Ghost(opt_expr_score(*end, nn)))
        },
        Expression::Struct { fields, rest } => {
            let l = exec_exprs(fields, n);
            let r = exec_opt(rest, n);
            sum_within(l, r, Ghost(exprs_score(fields@, nn)), Ghost(opt_expr_score(*rest, nn)))
        },
        Expression::Group(_) => Some(0),
        Expression::Macro => Some(0),
        Expression::Other => Some(0),
    }
}

/// The cognitive complexity of a function body, or `None` where it does not
/// fit in a `u32`.
pub fn checked_cognitive_complexity(block: &CodeBlock) -> (score: Option<u32>)
    ensures
        score == within_u32(block_score(*block, 0)),
{
    exec_block(block, 0)
}

/// The cognitive complexity of a function body.
pub fn cognitive_complexity(block: &CodeBlock) -> (score: u32)
    requires
        block_score(*block, 0) <= u32::MAX,
    ensures
        score == block_score(*block, 0),
{
    match exec_block(block, 0) {
        Some(score) => score,
        None => 0,
    }
}

/// The `?` operator costs nothing: an expression followed by `?` scores what
/// the expression alone scores, at every nesting depth.
pub proof fn law_try_operator_is_free(e: Expression, n: nat)
    ensures
        expr_score(Expression::Try(Box::new(e)), n) == expr_score(e, n),
{
}

/// A conditional construct costs one more for each level it is nested:
/// an `if` without `else` whose condition and body score nothing costs
/// exactly one plus its depth.
pub proof fn law_nesting_adds_depth(cond: Expression, then_branch: CodeBlock, n: nat)
    requires
        condition_score(cond) == 0,
        block_score(then_branch, n + 1) == 0,
    ensures
        expr_score(
            Expression::If { cond: Box::new(cond), then_branch, else_branch: None },
            n,
        ) == 1 + n,
{
    assert(else_score(None, n) == 0);
}

/// Raising the depth by one adds what raising it from zero to one adds, and
/// that is never negative: a score is affine in the depth.
pub open spec fn steps_evenly(at_n: nat, at_next: nat, at_zero: nat, at_one: nat) -> bool {
    at_next == at_n + at_one - at_zero && at_one >= at_zero
}

proof fn lemma_block_step(b: CodeBlock, n: nat)
    ensures
        steps_evenly(block_score(b, n), block_score(b, n + 1), block_score(b, 0), block_score(b, 1)),
    decreases b,
{
    lemma_stmts_step(b.stmts@, n);
}

proof fn lemma_stmts_step(s: Seq<Statement>, n: nat)
    ensures
        steps_evenly(stmts_score(s, n), stmts_score(s, n + 1), stmts_score(s, 0), stmts_score(s, 1)),
    decreases s,
{
    if s.len() > 0 {
        lemma_stmts_step(s.drop_last(), n);
        lemma_stmt_step(s.last(), n);
    }
}

proof fn lemma_stmt_step(st: Statement, n: nat)
    ensures
        steps_evenly(stmt_score(st, n), stmt_score(st, n + 1), stmt_score(st, 0), stmt_score(st, 1)),
    decreases st,
{
    match st {
        Statement::Local(init) => match init {
            Some(li) => {
                lemma_expr_step(*li.expr, n);
                lemma_opt_step(li.diverge, n);
            },
            None => {},
        },
        Statement::SourceItem(item) => match item {
            SourceItem::Fn(f) => lemma_block_step(f.block, n),
            SourceItem::Mod(m) => match m.content {
                Some(items) => lemma_items_step(items@, n),
                None => {},
            },
            _ => {},
        },
        Statement::Expression(e) => lemma_expr_step(e, n),
        Statement::Macro => {},
    }
}

proof fn lemma_items_step(s: Seq<SourceItem>, n: nat)
    ensures
        steps_evenly(items_score(s, n), items_score(s, n + 1), items_score(s, 0), items_score(s, 1)),
    decreases s,
{
    if s.len() > 0 {
        lemma_items_step(s.drop_last(), n);
        lemma_nested_item_step(s.last(), n);
    }
}

proof fn lemma_nested_item_step(item: SourceItem, n: nat)
    ensures
        steps_evenly(
            nested_item_score(item, n),
            nested_item_score(item, n + 1),
            nested_item_score(item, 0),
            nested_item_score(item, 1),
        ),
    decreases item,
{
    match item {
        SourceItem::Fn(f) => lemma_block_step(f.block, n),
        SourceItem::Impl(i) => lemma_members_step(i.members@, n),
        SourceItem::Mod(m) => match m.content {
            Some(items) => lemma_items_step(items@, n),
            None => {},
        },
        SourceItem::Other => {},
    }
}

proof fn lemma_members_step(s: Seq<ImplMember>, n: nat)
    ensures
        steps_evenly(
            members_score(s, n),
            members_score(s, n + 1),
            members_score(s, 0),
            members_score(s, 1),
        ),
    decreases s,
{
    if s.len() > 0 {
        lemma_members_step(s.drop_last(), n);
        lemma_member_step(s.last(), n);
    }
}

proof fn lemma_member_step(m: ImplMember, n: nat)
    ensures
        steps_evenly(member_score(m, n), member_score(m, n + 1), member_score(m, 0), member_score(m, 1)),
    decreases m,
{
    match m {
        ImplMember::Fn(f) => lemma_block_step(f.block, n),
        ImplMember::Other => {},
    }
}

proof fn lemma_exprs_step(s: Seq<Expression>, n: nat)
    ensures
        steps_evenly(exprs_score(s, n), exprs_score(s, n + 1), exprs_score(s, 0), exprs_score(s, 1)),
    decreases s,
{
    if s.len() > 0 {
        lemma_exprs_step(s.drop_last(), n);
        lemma_expr_step(s.last(), n);
    }
}

proof fn lemma_arms_step(s: Seq<Arm>, n: nat)
    ensures
        steps_evenly(arms_score(s, n), arms_score(s, n + 1), arms_score(s, 0), arms_score(s, 1)),
    decreases s,
{
    if s.len() > 0 {
        lemma_arms_step(s.drop_last(), n);
        lemma_arm_step(s.last(), n);
    }
}

proof fn lemma_arm_step(arm: Arm, n: nat)
    ensures
        steps_evenly(arm_score(arm, n), arm_score(arm, n + 1), arm_score(arm, 0), arm_score(arm, 1)),
    decreases arm,
{
    lemma_expr_step(*arm.body, n);
}

proof fn lemma_opt_step(e: Option<Box<Expression>>, n: nat)
    ensures
        steps_evenly(
            opt_expr_score(e, n),
            opt_expr_score(e, n + 1),
            opt_expr_score(e, 0),
            opt_expr_score(e, 1),
        ),
    decreases e,
{
    match e {
        Some(inner) => lemma_expr_step(*inner, n),
        None => {},
    }
}

proof fn lemma_else_step(else_branch: Option<Box<Expression>>, n: nat)
    ensures
        steps_evenly(
            else_score(else_branch, n),
            else_score(else_branch, n + 1),
            else_score(else_branch, 0),
            else_score(else_branch, 1),
        ),
    decreases else_branch,
{
    match else_branch {
        Some(other) => if (*other) is If {
            lemma_expr_step(*other, n);
        } else {
            lemma_expr_step(*other, n + 1);
            lemma_expr_step(*other, 1);
            lemma_expr_step(*other, 0);
        },
        None => {},
    }
}

proof fn lemma_expr_step(e: Expression, n: nat)
    ensures
        steps_evenly(expr_score(e, n), expr_score(e, n + 1), expr_score(e, 0), expr_score(e, 1)),
    decreases e,
{
    match e {
        Expression::If { cond, then_branch, else_branch } => {
            { lemma_block_step(then_branch, n + 1); lemma_block_step(then_branch, 1); lemma_block_step(then_branch, 0); };
            lemma_else_step(else_branch, n);
        },
        Expression::Match { expr, arms } => {
            lemma_expr_step(*expr, n);
            lemma_arms_step(arms@, n + 1);
            lemma_arms_step(arms@, 1);
            lemma_arms_step(arms@, 0);
        },
        Expression::ForLoop { pat, expr, body } => {
            lemma_expr_step(*expr, n);
            { lemma_block_step(body, n + 1); lemma_block_step(body, 1); lemma_block_step(body, 0); };
        },
        Expression::While { cond, body } => {
            lemma_block_step(body, n + 1); lemma_block_step(body, 1); lemma_block_step(body, 0); },
        Expression::Loop { body } => {
            lemma_block_step(body, n + 1); lemma_block_step(body, 1); lemma_block_step(body, 0); },
        Expression::CodeBlock(b) => lemma_block_step(b, n),
        Expression::Binary { op, left, right } => {
            lemma_expr_step(*left, n);
            lemma_expr_step(*right, n);
        },
        Expression::Call { func, args } => {
            lemma_expr_step(*func, n);
            lemma_exprs_step(args@, n);
        },
        Expression::MethodCall { receiver, args } => {
            lemma_expr_step(*receiver, n);
            lemma_exprs_step(args@, n);
        },
        Expression::Closure { body } => lemma_expr_step(*body, n),
        Expression::Async(b) => lemma_block_step(b, n),
        Expression::Await(inner) => lemma_expr_step(*inner, n),
        Expression::Try(inner) => lemma_expr_step(*inner, n),
        Expression::TryBlock(b) => {
            lemma_block_step(b, n + 1); lemma_block_step(b, 1); lemma_block_step(b, 0); },
        Expression::Unary(inner) => lemma_expr_step(*inner, n),
        Expression::Reference(inner) => lemma_expr_step(*inner, n),
        Expression::Return(inner) => lemma_opt_step(inner, n),
        Expression::Break(inner) => lemma_opt_step(inner, n),
        Expression::Paren(inner) => lemma_expr_step(*inner, n),
        Expression::Group(_) => {},
        Expression::Array(elems) => lemma_exprs_step(elems@, n),
        Expression::Assign { left, right } => {
            lemma_expr_step(*left, n);
            lemma_expr_step(*right, n);
        },
        Expression::Field(inner) => lemma_expr_step(*inner, n),
        Expression::Index { expr, index } => {
            lemma_expr_step(*expr, n);
            lemma_expr_step(*index, n);
        },
        Expression::Let(inner) => lemma_expr_step(*inner, n),
        Expression::Macro => {},
        Expression::Range { start, end } => {
            lemma_opt_step(start, n);
            lemma_opt_step(end, n);
        },
        Expression::Repeat { expr, len } => {
            lemma_expr_step(*expr, n);
            lemma_expr_step(*len, n);
        },
        Expression::Struct { fields, rest } => {
            lemma_exprs_step(fields@, n);
            lemma_opt_step(rest, n);
        },
        Expression::Tuple(elems) => lemma_exprs_step(elems@, n),
        Expression::Unsafe(b) => lemma_block_step(b, n),
        Expression::Yield(inner) => lemma_opt_step(inner, n),
        Expression::Other => {},
    }
}

/// A score is affine in the depth it starts at: each construct that costs
/// one plus its depth adds one per level, and nothing else depends on the
/// depth. Starting `n` levels deeper adds `n` times what starting one level
/// deeper adds, which is never negative.
pub proof fn law_score_affine_in_nesting(e: Expression, n: nat)
    ensures
        expr_score(e, 1) >= expr_score(e, 0),
        expr_score(e, n) == expr_score(e, 0) + n * (expr_score(e, 1) - expr_score(e, 0)),
    decreases n,
{
    lemma_expr_step(e, 0);
    if n > 0 {
        let m = (n - 1) as nat;
        law_score_affine_in_nesting(e, m);
        lemma_expr_step(e, m);
        let d = expr_score(e, 1) - expr_score(e, 0);
        assert(n * d == m * d + d) by (nonlinear_arith)
            requires
                n == m + 1,
        ;
        assert(expr_score(e, n) == expr_score(e, m) + d);
        assert(expr_score(e, m) == expr_score(e, 0) + m * d);
    } else {
        let d = expr_score(e, 1) - expr_score(e, 0);
        assert(n * d == 0) by (nonlinear_arith)
            requires
                n == 0,
        ;
    }
}

/// The same of a function body: starting its statements `n` levels deeper
/// adds `n` times what one level adds.
pub proof fn law_body_score_affine_in_nesting(b: CodeBlock, n: nat)
    ensures
        block_score(b, 1) >= block_score(b, 0),
        block_score(b, n) == block_score(b, 0) + n * (block_score(b, 1) - block_score(b, 0)),
    decreases n,
{
    lemma_block_step(b, 0);
    if n > 0 {
        let m = (n - 1) as nat;
        law_body_score_affine_in_nesting(b, m);
        lemma_block_step(b, m);
        let d = block_score(b, 1) - block_score(b, 0);
        assert(n * d == m * d + d) by (nonlinear_arith)
            requires
                n == m + 1,
        ;
        assert(block_score(b, n) == block_score(b, m) + d);
        assert(block_score(b, m) == block_score(b, 0) + m * d);
    } else {
        let d = block_score(b, 1) - block_score(b, 0);
        assert(n * d == 0) by (nonlinear_arith)
            requires
                n == 0,
        ;
    }
}

/// The sum of a sequence of naturals.
pub open spec fn total(s: Seq<nat>) -> nat
    decreases s.len(),
{
    if s.len() == 0 {
        0
    } else {
        total(s.drop_last()) + s.last()
    }
}

/// What each arm of a `match` at depth `n` costs: the short-circuit operators
/// of its guard, and its body scored one level deeper than the match.
pub open spec fn arm_costs(arms: Seq<Arm>, n: nat) -> Seq<nat> {
    arms.map_values(|a: Arm| guard_score(a.guard) + expr_score(*a.body, n + 1))
}

proof fn lemma_arms_total(arms: Seq<Arm>, n: nat)
    ensures
        arms_score(arms, n + 1) == total(arm_costs(arms, n)),
    decreases arms.len(),
{
    if arms.len() > 0 {
        lemma_arms_total(arms.drop_last(), n);
        let costs = arm_costs(arms, n);
        assert(costs.drop_last() =~= arm_costs(arms.drop_last(), n));
        assert(costs.last() == guard_score(arms.last().guard) + expr_score(*arms.last().body, n + 1));
        assert(arm_score(arms.last(), n + 1) == guard_score(arms.last().guard) + expr_score(
            *arms.last().body,
            n + 1,
        ));
        assert(total(costs) == total(costs.drop_last()) + costs.last());
    } else {
        assert(arm_costs(arms, n) =~= Seq::<nat>::empty());
    }
}

/// A `match` at depth `n` costs one plus `n`; its scrutinee is scored at the
/// match's own depth, and the body of every arm one level deeper, with the
/// short-circuit operators of the arm's guard on top.
pub proof fn law_match_arms_nest_one_deeper(scrutinee: Expression, arms: Vec<Arm>, n: nat)
    ensures
        expr_score(Expression::Match { expr: Box::new(scrutinee), arms }, n) == 1 + n + expr_score(
            scrutinee,
            n,
        ) + total(arm_costs(arms@, n)),
{
    lemma_arms_total(arms@, n);
}

/// Everything inside the body of an `if`, a `while`, a `loop`, a `for` or a
/// `try` block is scored one level deeper than the construct: the body adds
/// to the construct's cost what it scores at the next depth.
pub proof fn law_bodies_nest_one_deeper(
    cond: Expression,
    pat: Pat,
    iterated: Expression,
    body: CodeBlock,
    empty: CodeBlock,
    n: nat,
)
    requires
        empty.stmts@.len() == 0,
    ensures
        expr_score(Expression::If { cond: Box::new(cond), then_branch: body, else_branch: None }, n)
            == expr_score(
            Expression::If { cond: Box::new(cond), then_branch: empty, else_branch: None },
            n,
        ) + block_score(body, n + 1),
        expr_score(Expression::While { cond: Box::new(cond), body }, n) == expr_score(
            Expression::While { cond: Box::new(cond), body: empty },
            n,
        ) + block_score(body, n + 1),
        expr_score(Expression::Loop { body }, n) == expr_score(Expression::Loop { body: empty }, n)
            + block_score(body, n + 1),
        expr_score(Expression::ForLoop { pat, expr: Box::new(iterated), body }, n) == expr_score(
            Expression::ForLoop { pat, expr: Box::new(iterated), body: empty },
            n,
        ) + block_score(body, n + 1),
        expr_score(Expression::TryBlock(body), n) == expr_score(Expression::TryBlock(empty), n)
            + block_score(body, n + 1),
{
    assert(block_score(empty, n + 1) == 0);
    assert(else_score(None, n) == 0);
}

/// A plain `else` is nested one level deeper than its `if`, while an
/// `else if` continues the chain at the `if`'s own depth.
pub proof fn law_else_nesting(cond: Expression, then_branch: CodeBlock, other: Expression, n: nat)
    ensures
        !(other is If) ==> expr_score(
            Expression::If {
                cond: Box::new(cond),
                then_branch,
                else_branch: Some(Box::new(other)),
            },
            n,
        ) == expr_score(
            Expression::If { cond: Box::new(cond), then_branch, else_branch: None },
            n,
        ) + expr_score(other, n + 1),
        (other is If) ==> expr_score(
            Expression::If {
                cond: Box::new(cond),
                then_branch,
                else_branch: Some(Box::new(other)),
            },
            n,
        ) == expr_score(
            Expression::If { cond: Box::new(cond), then_branch, else_branch: None },
            n,
        ) + expr_score(other, n),
{
    assert(else_score(None, n) == 0);
    assert(*Box::new(other) == other);
    if other is If {
        assert(else_score(Some(Box::new(other)), n) == expr_score(other, n));
    } else {
        assert(else_score(Some(Box::new(other)), n) == expr_score(other, n + 1));
    }
}

} // verus!
