//! Which programs a native backend can compile: the decision that belongs to
//! the predicates of `limits`, for whole programs.

use vstd::hash_map::StringHashMap;
use vstd::prelude::*;
use crate::ast::{
    AsmOperand, AsmStmt, BinaryExpr, BinaryOp, CallExpr, DtorBlock, Expr, FnDef, ForInStmt, Program,
    Stmt, TopLevel, TryStmt,
};
use crate::cstar::raw::common::{
    collect_dtor_vars, dtor_vars, fib_shape, flatten_program, inlineable, is_fib, is_inlineable,
    program_decls, string_parts_text,
};
use crate::cstar::raw::limits::{
    asm_ok, at_most, binary_ok, block_ok, call_ok, cond_ok, expr_ok, exprs_ok, for_in_ok,
    operands_ok, opt_ok, repeat_ok, stmt_ok, stmts_ok, Target, try_ok,
};
use crate::cstar::raw::model::{any_main, Env, fresh_env, Func, noted};
use crate::text::{byte_length, same};

verus! {

// ---------------------------------------------------------------------------
// Programs
// ---------------------------------------------------------------------------

/// The bodies that calls may be replaced by can be compiled.
pub open spec fn fns_ok(t: Target, env: Env) -> bool {
    forall|n: Seq<char>| #[trigger]
        env.fns.contains_key(n) && inlineable(*env.fns[n]) ==> stmts_ok(
            t,
            env.fns[n].body@,
            env.fns[n].body@.len(),
        )
}

/// The destructors that a function calls can be compiled.
pub open spec fn dtors_ok(t: Target, env: Env, f: FnDef) -> bool {
    let vars = dtor_vars(env.dtors.dom(), f.body@, f.body@.len());
    forall|i: int|
        0 <= i < vars.len() && env.dtors.contains_key((#[trigger] vars[i]).1) ==> stmts_ok(
            t,
            env.dtors[vars[i].1].body@,
            env.dtors[vars[i].1].body@.len(),
        )
}

/// The function can be compiled.
pub open spec fn fn_ok(t: Target, env: Env, f: FnDef) -> bool {
    !(f.name.name@ != "main"@ && fib_shape(f)) ==> {
        &&& f.name.name@ == "main"@ || f.params@.len() <= t.args
        &&& stmts_ok(t, f.body@, f.body@.len())
        &&& dtors_ok(t, env, f)
    }
}

/// The declaration is a function named `main`.
pub open spec fn names_main(d: TopLevel) -> bool {
    d matches TopLevel::FnDef(f) && f.name.name@ == "main"@
}

/// One of the first `k` declarations is a function named `main`.
pub open spec fn declares_main(decls: Seq<&TopLevel>, k: int) -> bool {
    exists|i: int| 0 <= i < k && i < decls.len() && names_main(*#[trigger] decls[i])
}

/// Every statement among the declarations can be compiled.
pub open spec fn top_ok(t: Target, decls: Seq<&TopLevel>) -> bool {
    forall|i: int|
        0 <= i < decls.len() ==> ((#[trigger] decls[i]) matches TopLevel::Statement(s) ==> stmt_ok(
            t,
            *s,
        ))
}

/// The declarations can be compiled: every function, and the statements where
/// no function is `main`.
pub open spec fn decls_ok(t: Target, env: Env, funcs: Seq<Func>, decls: Seq<&TopLevel>) -> bool {
    &&& fns_ok(t, env)
    &&& forall|i: int|
        0 <= i < decls.len() ==> ((#[trigger] decls[i]) matches TopLevel::FnDef(f) ==> fn_ok(
            t,
            env,
            *f,
        ))
    &&& any_main(funcs) || declares_main(decls, decls.len() as int) || top_ok(t, decls)
}

// ---------------------------------------------------------------------------
// Deciding
// ---------------------------------------------------------------------------

/// Decides whether a repeated string fits into memory.
fn check_repeat(s: &str, n: i64) -> (r: bool)
    ensures
        r == repeat_ok(s@, n),
{
    reveal(repeat_ok);
    let len: u128 = byte_length(s) as u128;
    let count: u128 = (n as usize) as u128;
    assert(len * count <= 0xffff_ffff_ffff_ffff * 0xffff_ffff_ffff_ffff) by (nonlinear_arith)
        requires
            len <= 0xffff_ffff_ffff_ffff,
            count <= 0xffff_ffff_ffff_ffff,
    ;
    len * count <= isize::MAX as u128
}

/// Decides for the first `n` expressions.
fn check_exprs(t: Target, es: &Vec<Expr>, n: usize) -> (r: bool)
    requires
        n <= es@.len(),
    ensures
        r == exprs_ok(t, es@, n as nat),
    decreases es@, 1nat,
{
    let mut ok: bool = true;
    let mut k: usize = 0;
    while k < n
        invariant
            k <= n <= es@.len(),
            ok == exprs_ok(t, es@, k as nat),
        decreases n - k,
    {
        let e: bool = check_expr(t, &es[k]);
        ok = ok && e;
        k = k + 1;
    }
    ok
}

/// Decides for an expression.
fn check_expr(t: Target, e: &Expr) -> (r: bool)
    ensures
        r == expr_ok(t, *e),
    decreases e, 1nat,
{
    match e {
        Expr::Binary(b) => check_binary(t, b),
        Expr::Unary(u) => check_expr(t, &u.operand),
        Expr::AssignExpr(x) => check_expr(t, &x.value),
        Expr::Call(c) => check_call(t, c),
        Expr::Cast(c) => check_expr(t, &c.expr),
        Expr::Lambda(l) => l.params.len() <= t.args && check_expr(t, &l.body),
        Expr::TryPropagate(x) => check_expr(t, &x.expr),
        _ => true,
    }
}

/// Decides for a binary operation.
fn check_binary(t: Target, b: &BinaryExpr) -> (r: bool)
    ensures
        r == binary_ok(t, *b),
    decreases b, 0nat,
{
    match (b.operator, &*b.left, &*b.right) {
        (BinaryOp::Add, Expr::String_(_), Expr::String_(_)) => true,
        (BinaryOp::Mul, Expr::String_(s), Expr::Integer(n)) => {
            let x = string_parts_text(&s.parts);
            check_repeat(x.as_str(), n.value)
        },
        (BinaryOp::Mul, Expr::Integer(n), Expr::String_(s)) => {
            let x = string_parts_text(&s.parts);
            check_repeat(x.as_str(), n.value)
        },
        (BinaryOp::Eq, Expr::String_(_), Expr::String_(_)) => true,
        (BinaryOp::Ne, Expr::String_(_), Expr::String_(_)) => true,
        _ => check_expr(t, &b.left) && check_expr(t, &b.right),
    }
}

/// The lesser of two counts.
fn lesser(n: usize, m: usize) -> (r: usize)
    ensures
        r == at_most(n as nat, m as nat),
        r <= n,
{
    if n < m {
        n
    } else {
        m
    }
}

/// Decides for a call.
fn check_call(t: Target, c: &CallExpr) -> (r: bool)
    ensures
        r == call_ok(t, *c),
    decreases c, 0nat,
{
    let count: usize = c.args.len();
    match &*c.callee {
        Expr::Identifier(id) => {
            let n = id.name.as_str();
            if same(n, "memcpy") {
                check_exprs(t, &c.args, lesser(count, 3))
            } else if same(n, "memset") {
                (!t.strict || count >= 3) && check_exprs(t, &c.args, lesser(count, 3))
            } else if same(n, "spin_lock") || same(n, "spin_unlock") || same(n, "tls_get") {
                count >= 1 && check_exprs(t, &c.args, 1)
            } else if same(n, "tls_set") {
                count >= 2 && check_exprs(t, &c.args, 2)
            } else if same(n, "offsetof") || same(n, "static_assert") || same(n, "cycle_counter") {
                true
            } else {
                check_exprs(t, &c.args, lesser(count, t.args))
            }
        },
        Expr::MemberAccess(m) => {
            let n = m.member.name.as_str();
            if same(n, "load") || same(n, "load_acquire") {
                check_expr(t, &m.target)
            } else if same(n, "store") || same(n, "store_release") {
                if count > 0 {
                    check_exprs(t, &c.args, 1)
                } else {
                    t.strict || check_expr(t, &m.target)
                }
            } else {
                check_expr(t, &m.target)
            }
        },
        _ => true,
    }
}

/// Decides for an optional expression.
fn check_opt(t: Target, e: &Option<Box<Expr>>) -> (r: bool)
    ensures
        r == opt_ok(t, *e),
{
    match e {
        Some(x) => check_expr(t, x),
        None => true,
    }
}

/// Decides for the condition of an `if`.
fn check_cond(t: Target, e: &Expr) -> (r: bool)
    ensures
        r == cond_ok(t, *e),
{
    match e {
        Expr::Binary(b) => match b.operator {
            BinaryOp::Lt
            | BinaryOp::Gt
            | BinaryOp::Le
            | BinaryOp::Ge
            | BinaryOp::Eq
            | BinaryOp::Ne => check_expr(t, &b.left) && check_expr(t, &b.right),
            _ => check_expr(t, e),
        },
        _ => check_expr(t, e),
    }
}

/// Decides for operands.
fn check_operands(t: Target, ops: &Vec<AsmOperand>) -> (r: bool)
    ensures
        r == operands_ok(t, ops@, ops@.len()),
{
    let mut ok: bool = true;
    let mut k: usize = 0;
    while k < ops.len()
        invariant
            k <= ops@.len(),
            ok == operands_ok(t, ops@, k as nat),
        decreases ops@.len() - k,
    {
        let e: bool = check_expr(t, &ops[k].expr);
        ok = ok && e;
        k = k + 1;
    }
    ok
}

/// Decides for an inline assembly block.
fn check_template(t: Target, x: &AsmStmt) -> (r: bool)
    ensures
        r == asm_ok(t, *x),
{
    let total: u128 = x.outputs.len() as u128 + x.inputs.len() as u128;
    total > t.scratch as u128 || check_operands(t, &x.inputs)
}

/// Decides for statements.
fn check_stmts(t: Target, ss: &Vec<Stmt>) -> (r: bool)
    ensures
        r == stmts_ok(t, ss@, ss@.len()),
    decreases ss@, 0nat,
{
    let mut ok: bool = true;
    let mut k: usize = 0;
    while k < ss.len()
        invariant
            k <= ss@.len(),
            ok == stmts_ok(t, ss@, k as nat),
        decreases ss@.len() - k,
    {
        let s: bool = check_stmt(t, &ss[k]);
        ok = ok && s;
        k = k + 1;
    }
    ok
}

/// Decides for an optional block.
fn check_block(t: Target, b: &Option<Vec<Stmt>>) -> (r: bool)
    ensures
        r == block_ok(t, *b),
    decreases b, 0nat,
{
    match b {
        Some(v) => check_stmts(t, v),
        None => true,
    }
}

/// Decides for a for-in loop.
fn check_for_in(t: Target, fi: &ForInStmt) -> (r: bool)
    ensures
        r == for_in_ok(t, *fi),
    decreases fi, 0nat,
{
    match &fi.iterable {
        Expr::String_(_) => check_stmts(t, &fi.body),
        Expr::Range(x) => check_opt(t, &x.start) && check_opt(t, &x.end) && check_opt(t, &x.step)
            && check_stmts(t, &fi.body),
        Expr::List(l) => l.elements.len() == 0 || (check_exprs(t, &l.elements, l.elements.len())
            && check_stmts(t, &fi.body)),
        _ => true,
    }
}

/// Decides for a `try`.
fn check_try(t: Target, x: &TryStmt) -> (r: bool)
    ensures
        r == try_ok(t, *x),
    decreases x, 0nat,
{
    check_stmts(t, &x.try_body) && check_block(t, &x.catch_body) && check_block(t, &x.finally_body)
}

/// Decides for a statement.
fn check_stmt(t: Target, s: &Stmt) -> (r: bool)
    ensures
        r == stmt_ok(t, *s),
    decreases s, 1nat,
{
    match s {
        Stmt::Assign(x) => {
            if x.targets.len() > 0 {
                match &x.targets[0] {
                    crate::ast::Assignee::Identifier(_) => check_expr(t, &x.value),
                    _ => true,
                }
            } else {
                true
            }
        },
        Stmt::Return(r) => r.values.len() == 0 || check_expr(t, &r.values[0]),
        Stmt::If(i) => check_cond(t, &i.condition) && check_stmts(t, &i.then_body) && check_block(
            t,
            &i.else_body,
        ),
        Stmt::While(w) => check_expr(t, &w.condition) && check_stmts(t, &w.body),
        Stmt::Loop(l) => check_stmts(t, &l.body),
        Stmt::ForRange(f) => check_expr(t, &f.from) && check_expr(t, &f.to) && check_opt(t, &f.step)
            && check_stmts(t, &f.body),
        Stmt::ForIn(fi) => check_for_in(t, fi),
        Stmt::Expr(e) => check_expr(t, &e.expr),
        Stmt::Println(p) => check_exprs(t, &p.args, p.args.len()),
        Stmt::UnsafeBlock(u) => check_stmts(t, &u.body),
        Stmt::Asm(x) => check_template(t, x),
        Stmt::Try(x) => check_try(t, x),
        Stmt::Throw(x) => check_expr(t, &x.value),
        Stmt::Panic(p) => check_expr(t, &p.message),
        _ => true,
    }
}

/// The functions and destructors of a program by name.
struct ByName<'a> {
    fns: StringHashMap<&'a FnDef>,
    dtors: StringHashMap<&'a DtorBlock>,
}

/// Every noted function is one of the declarations.
proof fn lemma_noted_fn(arch: Seq<char>, decls: Seq<&TopLevel>, k: nat, n: Seq<char>)
    requires
        k <= decls.len(),
        noted(fresh_env(arch), decls, k).fns.contains_key(n),
    ensures
        exists|i: int|
            0 <= i < k && (*#[trigger] decls[i] matches TopLevel::FnDef(f) && f.name.name@ == n),
    decreases k,
{
    if k > 0 {
        let prev = noted(fresh_env(arch), decls, (k - 1) as nat);
        if prev.fns.contains_key(n) {
            lemma_noted_fn(arch, decls, (k - 1) as nat, n);
            let i = choose|i: int|
                0 <= i < k - 1 && (*#[trigger] decls[i] matches TopLevel::FnDef(f) && f.name.name@
                    == n);
            assert(decls[i] == decls[i]);
        } else {
            assert(*decls[k - 1] matches TopLevel::FnDef(f) && f.name.name@ == n);
        }
    }
}

impl<'a> ByName<'a> {
    /// Notes the functions and destructors of a program.
    fn note(decls: &Vec<&'a TopLevel>, Ghost(arch): Ghost<Seq<char>>) -> (r: Self)
        ensures
            r.fns@ == noted(fresh_env(arch), decls@, decls@.len()).fns,
            r.dtors@ == noted(fresh_env(arch), decls@, decls@.len()).dtors,
    {
        let mut r = ByName { fns: StringHashMap::new(), dtors: StringHashMap::new() };
        let mut k: usize = 0;
        while k < decls.len()
            invariant
                k <= decls@.len(),
                r.fns@ == noted(fresh_env(arch), decls@, k as nat).fns,
                r.dtors@ == noted(fresh_env(arch), decls@, k as nat).dtors,
            decreases decls@.len() - k,
        {
            match decls[k] {
                TopLevel::FnDef(f) => {
                    r.fns.insert(f.name.name.clone(), f);
                },
                TopLevel::DtorBlock(d) => {
                    r.dtors.insert(d.target.name.clone(), d);
                },
                _ => {},
            }
            k = k + 1;
        }
        r
    }

    /// Decides for the functions that calls may be replaced by.
    fn check_inlined(&self, t: Target, decls: &Vec<&'a TopLevel>, Ghost(arch): Ghost<Seq<char>>) -> (r:
        bool)
        requires
            self.fns@ == noted(fresh_env(arch), decls@, decls@.len()).fns,
        ensures
            r == fns_ok(t, noted(fresh_env(arch), decls@, decls@.len())),
    {
        let ghost env = noted(fresh_env(arch), decls@, decls@.len());
        let mut k: usize = 0;
        while k < decls.len()
            invariant
                k <= decls@.len(),
                env == noted(fresh_env(arch), decls@, decls@.len()),
                self.fns@ == env.fns,
                forall|i: int|
                    0 <= i < k ==> (*#[trigger] decls@[i] matches TopLevel::FnDef(f)
                        ==> env.fns.contains_key(f.name.name@) && inlineable(
                        *env.fns[f.name.name@],
                    ) ==> stmts_ok(
                        t,
                        env.fns[f.name.name@].body@,
                        env.fns[f.name.name@].body@.len(),
                    )),
            decreases decls@.len() - k,
        {
            match decls[k] {
                TopLevel::FnDef(f) => match self.fns.get(f.name.name.as_str()) {
                    Some(d) => {
                        if is_inlineable(d) && !check_stmts(t, &d.body) {
                            assert(env.fns.contains_key(f.name.name@));
                            return false;
                        }
                    },
                    None => {},
                },
                _ => {},
            }
            k = k + 1;
        }
        proof {
            assert forall|n: Seq<char>| #[trigger]
                env.fns.contains_key(n) && inlineable(*env.fns[n]) implies stmts_ok(
                t,
                env.fns[n].body@,
                env.fns[n].body@.len(),
            ) by {
                lemma_noted_fn(arch, decls@, decls@.len(), n);
                let i = choose|i: int|
                    0 <= i < decls@.len() && (*#[trigger] decls@[i] matches TopLevel::FnDef(f)
                        && f.name.name@ == n);
                assert(*decls@[i] matches TopLevel::FnDef(f) && f.name.name@ == n);
            }
        }
        true
    }

    /// Decides for the destructors that a function calls.
    fn check_dtors(&self, t: Target, f: &FnDef, Ghost(env): Ghost<Env<'a>>) -> (r: bool)
        requires
            self.dtors@ == env.dtors,
        ensures
            r == dtors_ok(t, env, *f),
    {
        let vars = collect_dtor_vars(&self.dtors, &f.body);
        let mut k: usize = 0;
        while k < vars.len()
            invariant
                k <= vars@.len(),
                self.dtors@ == env.dtors,
                vars@ == dtor_vars(env.dtors.dom(), f.body@, f.body@.len()),
                forall|i: int|
                    0 <= i < k && env.dtors.contains_key((#[trigger] vars@[i]).1) ==> stmts_ok(
                        t,
                        env.dtors[vars@[i].1].body@,
                        env.dtors[vars@[i].1].body@.len(),
                    ),
            decreases vars@.len() - k,
        {
            match self.dtors.get(vars.second(k)) {
                Some(d) => {
                    if !check_stmts(t, &d.body) {
                        assert(env.dtors.contains_key(vars@[k as int].1));
                        return false;
                    }
                },
                None => {},
            }
            k = k + 1;
        }
        true
    }

    /// Decides for a function.
    fn check_fn(&self, t: Target, f: &FnDef, Ghost(env): Ghost<Env<'a>>) -> (r: bool)
        requires
            self.dtors@ == env.dtors,
        ensures
            r == fn_ok(t, env, *f),
    {
        let main: bool = same(f.name.name.as_str(), "main");
        if !main && is_fib(f) {
            return true;
        }
        (main || f.params.len() <= t.args) && check_stmts(t, &f.body) && self.check_dtors(
            t,
            f,
            Ghost(env),
        )
    }
}

/// Decides for the statements among declarations; where one is `main`, they are
/// not compiled.
fn check_top(t: Target, decls: &Vec<&TopLevel>) -> (r: bool)
    ensures
        r == (declares_main(decls@, decls@.len() as int) || top_ok(t, decls@)),
{
    let mut ok: bool = true;
    let mut k: usize = 0;
    while k < decls.len()
        invariant
            k <= decls@.len(),
            !declares_main(decls@, k as int),
            ok == forall|i: int|
                0 <= i < k ==> ((#[trigger] decls@[i]) matches TopLevel::Statement(s) ==> stmt_ok(
                    t,
                    *s,
                )),
        decreases decls@.len() - k,
    {
        match decls[k] {
            TopLevel::FnDef(f) => {
                if same(f.name.name.as_str(), "main") {
                    assert(names_main(*decls@[k as int]));
                    return true;
                }
            },
            TopLevel::Statement(s) => {
                if !check_stmt(t, s) {
                    ok = false;
                }
            },
            _ => {},
        }
        k = k + 1;
    }
    ok
}

/// Decides whether a target takes a program.
pub(crate) fn supports(t: Target, program: &Program, Ghost(arch): Ghost<Seq<char>>) -> (r: bool)
    ensures
        r == decls_ok(
            t,
            noted(fresh_env(arch), program_decls(*program), program_decls(*program).len()),
            Seq::empty(),
            program_decls(*program),
        ),
{
    let decls = flatten_program(program);
    let ghost env = noted(fresh_env(arch), decls@, decls@.len());
    let names = ByName::note(&decls, Ghost(arch));
    if !names.check_inlined(t, &decls, Ghost(arch)) {
        return false;
    }
    let mut k: usize = 0;
    while k < decls.len()
        invariant
            k <= decls@.len(),
            decls@ == program_decls(*program),
            env == noted(fresh_env(arch), decls@, decls@.len()),
            fns_ok(t, env),
            names.dtors@ == env.dtors,
            forall|i: int|
                0 <= i < k ==> ((#[trigger] decls@[i]) matches TopLevel::FnDef(f) ==> fn_ok(
                    t,
                    env,
                    *f,
                )),
        decreases decls@.len() - k,
    {
        match decls[k] {
            TopLevel::FnDef(f) => {
                if !names.check_fn(t, f, Ghost(env)) {
                    let ghost d = decls@[k as int];
                    assert(d matches TopLevel::FnDef(g) && !fn_ok(t, env, *g));
                    return false;
                }
            },
            _ => {},
        }
        k = k + 1;
    }
    check_top(t, &decls)
}

} // verus!
