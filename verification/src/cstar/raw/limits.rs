//! The programs that a native backend can compile.
//!
//! A backend has a fixed number of argument registers, its built-ins need
//! their arguments, and a repeated string constant has to fit into memory.
//! The predicates here look at exactly the parts of a program that are
//! compiled.

use vstd::prelude::*;
use crate::ast::{
    AsmOperand, AsmStmt, BinaryExpr, BinaryOp, CallExpr, Expr, ForInStmt, Stmt, TryStmt,
};
use crate::cstar::raw::common::parts_text;
use crate::text::byte_len;

verus! {

/// What a target can take: its argument registers, its registers for inline
/// assembly operands, and whether `memset` needs all three arguments and a
/// store without argument evaluates nothing.
#[derive(Clone, Copy)]
pub struct Target {
    pub args: usize,
    pub scratch: usize,
    pub strict: bool,
}

/// `t` written `n` times fits into memory.
#[verifier::opaque]
pub open spec fn repeat_ok(t: Seq<char>, n: i64) -> bool {
    byte_len(t) * (n as usize) <= isize::MAX
}

/// The first `k` expressions can be compiled.
pub open spec fn exprs_ok(t: Target, es: Seq<Expr>, k: nat) -> bool
    decreases es, k,
{
    k == 0 || k > es.len() || (exprs_ok(t, es, (k - 1) as nat) && expr_ok(t, es[k - 1]))
}

/// The expression can be compiled.
pub open spec fn expr_ok(t: Target, e: Expr) -> bool
    decreases e, 0nat,
{
    match e {
        Expr::Binary(b) => binary_ok(t, b),
        Expr::Unary(u) => expr_ok(t, *u.operand),
        Expr::AssignExpr(x) => expr_ok(t, *x.value),
        Expr::Call(c) => call_ok(t, c),
        Expr::Cast(c) => expr_ok(t, *c.expr),
        Expr::Lambda(l) => l.params@.len() <= t.args && expr_ok(t, *l.body),
        Expr::TryPropagate(x) => expr_ok(t, *x.expr),
        _ => true,
    }
}

/// The binary operation can be compiled.
pub open spec fn binary_ok(t: Target, b: BinaryExpr) -> bool
    decreases b, 0nat,
{
    match (b.operator, *b.left, *b.right) {
        (BinaryOp::Add, Expr::String_(_), Expr::String_(_)) => true,
        (BinaryOp::Mul, Expr::String_(s), Expr::Integer(n)) => repeat_ok(
            parts_text(s.parts@),
            n.value,
        ),
        (BinaryOp::Mul, Expr::Integer(n), Expr::String_(s)) => repeat_ok(
            parts_text(s.parts@),
            n.value,
        ),
        (BinaryOp::Eq, Expr::String_(_), Expr::String_(_)) => true,
        (BinaryOp::Ne, Expr::String_(_), Expr::String_(_)) => true,
        _ => expr_ok(t, *b.left) && expr_ok(t, *b.right),
    }
}

/// The lesser of two counts.
pub open spec fn at_most(n: nat, m: nat) -> nat {
    if n < m {
        n
    } else {
        m
    }
}

/// The call can be compiled.
pub open spec fn call_ok(t: Target, c: CallExpr) -> bool
    decreases c, 0nat,
{
    let args = c.args@;
    match *c.callee {
        Expr::Identifier(id) => {
            let n = id.name@;
            if n == "memcpy"@ {
                exprs_ok(t, args, at_most(args.len(), 3))
            } else if n == "memset"@ {
                (t.strict ==> args.len() >= 3) && exprs_ok(t, args, at_most(args.len(), 3))
            } else if n == "spin_lock"@ || n == "spin_unlock"@ || n == "tls_get"@ {
                args.len() >= 1 && exprs_ok(t, args, 1)
            } else if n == "tls_set"@ {
                args.len() >= 2 && exprs_ok(t, args, 2)
            } else if n == "offsetof"@ || n == "static_assert"@ || n == "cycle_counter"@ {
                true
            } else {
                exprs_ok(t, args, at_most(args.len(), t.args as nat))
            }
        },
        Expr::MemberAccess(m) => {
            let n = m.member.name@;
            if n == "load"@ || n == "load_acquire"@ {
                expr_ok(t, *m.target)
            } else if n == "store"@ || n == "store_release"@ {
                if args.len() > 0 {
                    exprs_ok(t, args, 1)
                } else {
                    t.strict || expr_ok(t, *m.target)
                }
            } else {
                expr_ok(t, *m.target)
            }
        },
        _ => true,
    }
}

/// The optional expression can be compiled.
pub open spec fn opt_ok(t: Target, e: Option<Box<Expr>>) -> bool {
    match e {
        Some(x) => expr_ok(t, *x),
        None => true,
    }
}

/// The condition of an `if` can be compiled: the sides of a comparison are
/// compiled one by one.
pub open spec fn cond_ok(t: Target, e: Expr) -> bool {
    match e {
        Expr::Binary(b) => match b.operator {
            BinaryOp::Lt
            | BinaryOp::Gt
            | BinaryOp::Le
            | BinaryOp::Ge
            | BinaryOp::Eq
            | BinaryOp::Ne => expr_ok(t, *b.left) && expr_ok(t, *b.right),
            _ => expr_ok(t, e),
        },
        _ => expr_ok(t, e),
    }
}

/// The first `k` operands can be compiled.
pub open spec fn operands_ok(t: Target, ops: Seq<AsmOperand>, k: nat) -> bool
    decreases k,
{
    k == 0 || k > ops.len() || (operands_ok(t, ops, (k - 1) as nat) && expr_ok(t, ops[k - 1].expr))
}

/// The inline assembly block can be compiled.
pub open spec fn asm_ok(t: Target, x: AsmStmt) -> bool {
    x.outputs@.len() + x.inputs@.len() > t.scratch || operands_ok(t, x.inputs@, x.inputs@.len())
}

/// The first `k` statements can be compiled.
pub open spec fn stmts_ok(t: Target, ss: Seq<Stmt>, k: nat) -> bool
    decreases ss, k,
{
    k == 0 || k > ss.len() || (stmts_ok(t, ss, (k - 1) as nat) && stmt_ok(t, ss[k - 1]))
}

/// The optional block can be compiled.
pub open spec fn block_ok(t: Target, b: Option<Vec<Stmt>>) -> bool
    decreases b, 0nat,
{
    match b {
        Some(v) => stmts_ok(t, v@, v@.len()),
        None => true,
    }
}

/// The for-in loop can be compiled.
pub open spec fn for_in_ok(t: Target, fi: ForInStmt) -> bool
    decreases fi, 0nat,
{
    match fi.iterable {
        Expr::String_(_) => stmts_ok(t, fi.body@, fi.body@.len()),
        Expr::Range(r) => opt_ok(t, r.start) && opt_ok(t, r.end) && opt_ok(t, r.step) && stmts_ok(
            t,
            fi.body@,
            fi.body@.len(),
        ),
        Expr::List(l) => l.elements@.len() == 0 || (exprs_ok(t, l.elements@, l.elements@.len())
            && stmts_ok(t, fi.body@, fi.body@.len())),
        _ => true,
    }
}

/// The `try` can be compiled.
pub open spec fn try_ok(t: Target, x: TryStmt) -> bool
    decreases x, 0nat,
{
    stmts_ok(t, x.try_body@, x.try_body@.len()) && block_ok(t, x.catch_body) && block_ok(
        t,
        x.finally_body,
    )
}

/// The statement can be compiled.
pub open spec fn stmt_ok(t: Target, s: Stmt) -> bool
    decreases s, 0nat,
{
    match s {
        Stmt::Assign(x) => x.targets@.len() > 0 && x.targets@[0] is Identifier ==> expr_ok(
            t,
            x.value,
        ),
        Stmt::Return(r) => r.values@.len() > 0 ==> expr_ok(t, r.values@[0]),
        Stmt::If(i) => cond_ok(t, i.condition) && stmts_ok(t, i.then_body@, i.then_body@.len())
            && block_ok(t, i.else_body),
        Stmt::While(w) => expr_ok(t, w.condition) && stmts_ok(t, w.body@, w.body@.len()),
        Stmt::Loop(l) => stmts_ok(t, l.body@, l.body@.len()),
        Stmt::ForRange(fr) => expr_ok(t, fr.from) && expr_ok(t, fr.to) && opt_ok(t, fr.step)
            && stmts_ok(t, fr.body@, fr.body@.len()),
        Stmt::ForIn(fi) => for_in_ok(t, fi),
        Stmt::Expr(e) => expr_ok(t, e.expr),
        Stmt::Println(p) => exprs_ok(t, p.args@, p.args@.len()),
        Stmt::UnsafeBlock(u) => stmts_ok(t, u.body@, u.body@.len()),
        Stmt::Asm(x) => asm_ok(t, x),
        Stmt::Try(x) => try_ok(t, x),
        Stmt::Throw(x) => expr_ok(t, x.value),
        Stmt::Panic(p) => expr_ok(t, p.message),
        _ => true,
    }
}

/// Each of the first `k` expressions can be compiled where all of them can.
pub proof fn lemma_expr_at(t: Target, es: Seq<Expr>, k: nat, i: int)
    requires
        exprs_ok(t, es, k),
        0 <= i < k <= es.len(),
    ensures
        expr_ok(t, es[i]),
    decreases k,
{
    if i < k - 1 {
        lemma_expr_at(t, es, (k - 1) as nat, i);
    }
}

/// Each of the first `k` statements can be compiled where all of them can.
pub proof fn lemma_stmt_at(t: Target, ss: Seq<Stmt>, k: nat, i: int)
    requires
        stmts_ok(t, ss, k),
        0 <= i < k <= ss.len(),
    ensures
        stmt_ok(t, ss[i]),
    decreases k,
{
    if i < k - 1 {
        lemma_stmt_at(t, ss, (k - 1) as nat, i);
    }
}

/// Each of the first `k` operands can be compiled where all of them can.
pub proof fn lemma_operand_at(t: Target, ops: Seq<AsmOperand>, k: nat, i: int)
    requires
        operands_ok(t, ops, k),
        0 <= i < k <= ops.len(),
    ensures
        expr_ok(t, ops[i].expr),
    decreases k,
{
    if i < k - 1 {
        lemma_operand_at(t, ops, (k - 1) as nat, i);
    }
}

} // verus!
