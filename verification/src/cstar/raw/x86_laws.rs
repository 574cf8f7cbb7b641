//! What every step of the x86_64 backend keeps: it only appends, no variable
//! moves, and the stack slots stay apart.

use vstd::prelude::*;
use crate::ast::{
    AsmOperand, AsmStmt, Assignee, BinaryExpr, BinaryOp, CallExpr, Expr, FnDef, FnParam, ForInStmt,
    ForRangeStmt, Identifier, IfStmt, LambdaExpr, RangeExpr, Stmt, TopLevel, TryStmt, WhileStmt,
};
use crate::cstar::raw::x86_model::{
    arg_code, arg_target, args_code, asm_code, binary_code, bind_args, bind_params, block_code,
    body_entry, break_text, builtin_code, call_code, captures, Code, compile_result, cond_code,
    cond_of, continue_text, direct_args, dtors_code, enter_fn, enter_main, exit_label, expr_code,
    fn_body, fn_code, fns_code, for_in_code, for_range_code, general_op, if_code, imm_op,
    inline_code, inputs_code, lambda_code, load_slot, load_var, load_var_unless, mov_rax,
    newline_code, opt_code, place_var, plain_cond, pool, pool_index, pool_reg, pop_args,
    pop_handler, print_args, print_int_code, print_int_text, program_code, push_handler,
    pushed_args, raise, range_ctx, range_entry, range_head, range_loop_code, range_tail, real_call,
    return_jump, scratch_reg, scratch_regs, set_rax, SLOTS_TOP, spin_loop, step_code, stmt_code,
    stmts_code, store_outputs, store_slot, store_var, store_var_unless, str_code, str_loop_code,
    str_loop_head, template_comments, top_code, top_ctx, try_code, twenty_on, unrolled, while_code,
    write_str,
};
use crate::cstar::raw::common::{
    bump, down8, dtor_vars, free_names, inlineable, param_names, parts_text, VarLoc,
};
use crate::cstar::raw::lines::{ins1, ins1n, label_line};
use crate::cstar::raw::regalloc::{
    allocated, AllocState, first_free, fresh_alloc, furthest, held, Holding,
    law_allocation_is_stable, law_live_variables_keep_their_registers, lemma_furthest, lemma_put,
    lemma_unexpired, Place, place_of, registers_sound, unexpired,
};
use crate::cstar::raw::model::{
    Ctx, Env, group_grown, group_kept, group_stacked, grown, is_builtin, kept, lab, lemma_grown_add,
    lemma_grown_trans, lemma_kept_but, lemma_kept_restored, lemma_kept_trans,
    lemma_stacked_restored, lemma_stacked_trans, list_len, names_of, new_slots, own_slots, restored,
    stacked, template_lines, three_args,
};
use crate::text::{byte_len, lines, repeated, sorted_set};

verus! {

/// `b` comes from `a` by appending: the code, the functions, the string constants
/// and the errors of `a` are still there, in front, and a `return` goes to the
/// same place, or nowhere where a lambda has been compiled. Every variable keeps
/// its location, unless its name is in `p`, and new ones get new stack slots.
pub open spec fn appended_but(a: Code, b: Code, p: Set<Seq<char>>) -> bool {
    &&& grown(a.code, b.code)
    &&& grown(a.funcs, b.funcs)
    &&& grown(a.strs, b.strs)
    &&& grown(a.errs, b.errs)
    &&& b.epi == a.epi || b.epi is None
    &&& kept(a.vars, b.vars, p)
    &&& stacked(a.vars, a.off, b.vars, b.off)
}

/// `b` comes from `a` by appending, and every variable keeps its location.
pub open spec fn appended(a: Code, b: Code) -> bool {
    appended_but(a, b, Set::empty())
}

/// One step after another.
proof fn lemma_then(a: Code, b: Code, c: Code)
    requires
        appended(a, b),
        appended(b, c),
    ensures
        appended(a, c),
{
    lemma_grown_trans(a.code, b.code, c.code);
    lemma_grown_trans(a.funcs, b.funcs, c.funcs);
    lemma_grown_trans(a.strs, b.strs, c.strs);
    lemma_grown_trans(a.errs, b.errs, c.errs);
    lemma_kept_trans(a.vars, b.vars, c.vars, Set::empty());
    lemma_stacked_trans(a.vars, a.off, b.vars, b.off, c.vars, c.off);
}

/// A longer text.
proof fn lemma_with(a: Code, code: Seq<char>)
    requires
        grown(a.code, code),
    ensures
        appended(a, a.with(code)),
{
    broadcast use group_grown, group_kept, group_stacked;

}

/// A label number and two stack slots.
proof fn lemma_range_entry(st: Code)
    ensures
        appended(st, range_entry(st)),
{
    broadcast use group_grown, group_kept, group_stacked;

}

/// `store_var` appends.
proof fn lemma_store_var(out: Seq<char>, loc: VarLoc, src: Seq<char>)
    ensures
        grown(out, store_var(out, loc, src)),
{
    broadcast use group_grown, group_kept, group_stacked;

    reveal(store_var);
}

/// `store_var_unless` appends.
proof fn lemma_store_var_unless(out: Seq<char>, loc: VarLoc, src: Seq<char>)
    ensures
        grown(out, store_var_unless(out, loc, src)),
{
    broadcast use group_grown, group_kept, group_stacked;

    reveal(store_var_unless);
    if !(loc matches VarLoc::Reg(i) && pool_reg(i as int) == src) {
        lemma_store_var(out, loc, src);
    }
}

/// `load_var` appends.
proof fn lemma_load_var(out: Seq<char>, loc: VarLoc, target: Seq<char>)
    ensures
        grown(out, load_var(out, loc, target)),
{
    broadcast use group_grown, group_kept, group_stacked;

    reveal(load_var);
}

/// `load_var_unless` appends.
proof fn lemma_load_var_unless(out: Seq<char>, loc: VarLoc, target: Seq<char>)
    ensures
        grown(out, load_var_unless(out, loc, target)),
{
    broadcast use group_grown, group_kept, group_stacked;

    reveal(load_var_unless);
    if !(loc matches VarLoc::Reg(i) && pool_reg(i as int) == target) {
        lemma_load_var(out, loc, target);
    }
}

/// `mov_rax` appends.
proof fn lemma_mov_rax(out: Seq<char>, target: Seq<char>)
    ensures
        grown(out, mov_rax(out, target)),
{
    broadcast use group_grown, group_kept, group_stacked;

    reveal(mov_rax);
}

/// `str_code` appends.
proof fn lemma_str_code(st: Code, target: Seq<char>, s: Seq<char>)
    ensures
        appended(st, str_code(st, target, s)),
{
    broadcast use group_grown, group_kept, group_stacked;

}

/// `place_var` appends.
proof fn lemma_place_var(st: Code, n: Seq<char>)
    ensures
        appended(st, place_var(st, n).1),
{
    broadcast use group_grown, group_kept, group_stacked;

    reveal(place_var);
}

/// `return_jump` appends.
proof fn lemma_return_jump(st: Code)
    ensures
        appended(st, return_jump(st)),
{
    broadcast use group_grown, group_kept, group_stacked;

    reveal(return_jump);
}

/// `set_rax` appends.
proof fn lemma_set_rax(out: Seq<char>, cond: Seq<char>)
    ensures
        grown(out, set_rax(out, cond)),
{
    broadcast use group_grown, group_kept, group_stacked;

    reveal(set_rax);
}

/// `imm_op` appends.
proof fn lemma_imm_op(out: Seq<char>, op: BinaryOp, v: int)
    ensures
        grown(out, imm_op(out, op, v)),
{
    broadcast use group_grown, group_kept, group_stacked;

    reveal(imm_op);
    match cond_of(op) {
        Some(c) => {
            lemma_set_rax(out + ins1n("cmp"@, "rax"@, v), c);
        },
        _ => {},
    }
}

/// `general_op` appends.
proof fn lemma_general_op(out: Seq<char>, op: BinaryOp)
    ensures
        grown(out, general_op(out, op)),
{
    broadcast use group_grown, group_kept, group_stacked;

    reveal(general_op);
    match cond_of(op) {
        Some(c) => {
            lemma_set_rax(out + "    cmp rax, rcx\n"@, c);
        },
        _ => {},
    }
}

/// `print_int_text` appends.
proof fn lemma_print_int_text(out: Seq<char>, id: nat)
    ensures
        grown(out, print_int_text(out, id)),
{
    broadcast use group_grown, group_kept, group_stacked;

    reveal(print_int_text);
}

/// `print_int_code` appends.
proof fn lemma_print_int_code(st: Code)
    ensures
        appended(st, print_int_code(st)),
{
    broadcast use group_grown, group_kept, group_stacked;

    lemma_print_int_text(st.code, st.labels as nat);
}

/// `write_str` appends.
proof fn lemma_write_str(out: Seq<char>, n: nat, len: nat)
    ensures
        grown(out, write_str(out, n, len)),
{
    broadcast use group_grown, group_kept, group_stacked;

    reveal(write_str);
}

/// `newline_code` appends.
proof fn lemma_newline_code(st: Code)
    ensures
        appended(st, newline_code(st)),
{
    broadcast use group_grown, group_kept, group_stacked;

    lemma_write_str(st.code, st.strs.len(), 1);
}

/// `push_handler` appends.
proof fn lemma_push_handler(out: Seq<char>, label: Seq<char>)
    ensures
        grown(out, push_handler(out, label)),
{
    broadcast use group_grown, group_kept, group_stacked;

    reveal(push_handler);
}

/// `raise` appends.
proof fn lemma_raise(out: Seq<char>)
    ensures
        grown(out, raise(out)),
{
    broadcast use group_grown, group_kept, group_stacked;

    reveal(raise);
}

/// `spin_loop` appends.
proof fn lemma_spin_loop(out: Seq<char>, l: Seq<char>)
    ensures
        grown(out, spin_loop(out, l)),
{
    broadcast use group_grown, group_kept, group_stacked;

    reveal(spin_loop);
}

/// `str_loop_head` appends.
proof fn lemma_str_loop_head(out: Seq<char>, n: nat, len: nat, cond: Seq<char>, end: Seq<char>)
    ensures
        grown(out, str_loop_head(out, n, len, cond, end)),
{
    broadcast use group_grown, group_kept, group_stacked;

    reveal(str_loop_head);
}

/// `range_head` appends.
proof fn lemma_range_head(out: Seq<char>, id: usize, loc: VarLoc, bound: i32, step: i32)
    ensures
        grown(out, range_head(out, id, loc, bound, step)),
{
    broadcast use group_grown, group_kept, group_stacked;

    reveal(range_head);
    let end = lab(".Lfrend_"@, id);
    let o1 = out + label_line(lab(".Lfrcond_"@, id)) + load_slot("rax"@, step as int) + "    cmp rax, 0\n"@ + ins1("jge"@, lab(".Lfrpos_"@, id));
    lemma_load_var(o1, loc, "rax"@);
    let o2 = load_var(o1, loc, "rax"@) + load_slot("rcx"@, bound as int) + "    cmp rax, rcx\n"@ + ins1("jle"@, end) + ins1("jmp"@, lab(".Lfrskip_"@, id)) + label_line(lab(".Lfrpos_"@, id));
    lemma_load_var(o2, loc, "rax"@);
}

/// `range_tail` appends.
proof fn lemma_range_tail(out: Seq<char>, id: usize, loc: VarLoc, step: i32)
    ensures
        grown(out, range_tail(out, id, loc, step)),
{
    broadcast use group_grown, group_kept, group_stacked;

    reveal(range_tail);
}

/// `template_comments` appends.
proof fn lemma_template_comments(out: Seq<char>, a: AsmStmt)
    ensures
        grown(out, template_comments(out, a)),
{
    broadcast use group_grown, group_kept, group_stacked;

    reveal(template_comments);
}

/// `store_outputs` appends.
proof fn lemma_store_outputs(
    out: Seq<char>,
    vars: Map<Seq<char>, VarLoc>,
    ops: Seq<AsmOperand>,
    k: nat,
)
    ensures
        grown(out, store_outputs(out, vars, ops, k)),
    decreases k,
{
    broadcast use group_grown, group_kept, group_stacked;

    reveal(store_outputs);
    if !(k == 0 || k > ops.len()) {
        lemma_store_outputs(out, vars, ops, (k - 1) as nat);
        let prev = store_outputs(out, vars, ops, (k - 1) as nat);
        match ops[k - 1].expr {
            Expr::Identifier(id) => {
                if vars.contains_key(id.name@) {
                    lemma_store_var_unless(prev, vars[id.name@], scratch_reg(k - 1));
                }
            },
            _ => {},
        }
    }
}

/// `bind_args` appends.
proof fn lemma_bind_args(st: Code, params: Seq<FnParam>, k: nat)
    ensures
        appended_but(st, bind_args(st, params, k), names_of(params)),
    decreases k,
{
    broadcast use group_grown, group_kept, group_stacked;

    reveal(bind_args);
    if !(k == 0 || k > params.len()) {
        lemma_bind_args(st, params, (k - 1) as nat);
        let prev = bind_args(st, params, (k - 1) as nat);
        let n = params[k - 1].name.name@;
        let p = names_of(params);
        if k <= 4 {
            let vars = prev.vars.insert(n, VarLoc::Reg((k - 1) as usize));
            assert(kept(prev.vars, vars, p));
            assert(stacked(prev.vars, prev.off, vars, prev.off));
        } else {
            let vars = prev.vars.insert(n, VarLoc::Stack(down8(prev.off)));
            assert(kept(prev.vars, vars, p));
            assert(stacked(prev.vars, prev.off, vars, down8(prev.off)));
        }
    }
}

/// `captures` appends.
proof fn lemma_captures(st: Code, name: Seq<char>, free: Seq<Seq<char>>, k: nat)
    ensures
        appended(st, captures(st, name, free, k)),
    decreases k,
{
    broadcast use group_grown, group_kept, group_stacked;

    reveal(captures);
    if !(k == 0 || k > free.len()) {
        lemma_captures(st, name, free, (k - 1) as nat);
        let prev = captures(st, name, free, (k - 1) as nat);
        let v = free[k - 1];
        if prev.vars.contains_key(v) {
            lemma_load_var(prev.code, prev.vars[v], "rax"@);
        }
    }
}

/// `expr_code` appends.
proof fn lemma_expr_code(env: Env, ctx: Ctx, st: Code, e: Expr, target: Seq<char>)
    ensures
        appended(st, expr_code(env, ctx, st, e, target)),
    decreases ctx.depth, 0nat, e, 0nat,
{
    broadcast use group_grown, group_kept, group_stacked;

    match e {
        Expr::String_(s) => {
            lemma_str_code(st, target, parts_text(s.parts@));
        },
        Expr::Binary(b) => {
            lemma_binary_code(env, ctx, st, b, target);
        },
        Expr::Identifier(id) => {
            if st.vars.contains_key(id.name@) {
                lemma_load_var_unless(st.code, st.vars[id.name@], target);
            }
        },
        Expr::Unary(u) => {
            lemma_expr_code(env, ctx, st, *u.operand, target);
        },
        Expr::AssignExpr(x) => {
            lemma_expr_code(env, ctx, st, *x.value, target);
            let s1 = expr_code(env, ctx, st, *x.value, target);
            if x.targets@.len() > 0 {
                match x.targets@[0] {
                    Assignee::Identifier(id) => {
                        if s1.vars.contains_key(id.name@) {
                            lemma_store_var_unless(s1.code, s1.vars[id.name@], target);
                        }
                    },
                    _ => {},
                }
            }
        },
        Expr::Call(c) => {
            lemma_call_code(env, ctx, st, c, target);
        },
        Expr::Cast(c) => {
            lemma_expr_code(env, ctx, st, *c.expr, target);
        },
        Expr::Lambda(l) => {
            lemma_lambda_code(env, ctx, st, l, target);
        },
        Expr::TryPropagate(t) => {
            let s0 = st.with(st.code + "    # TryPropagate: evaluate expr\n"@);
            lemma_expr_code(env, ctx, s0, *t.expr, target);
        },
        _ => {},
    }
}

/// `binary_code` appends.
proof fn lemma_binary_code(env: Env, ctx: Ctx, st: Code, b: BinaryExpr, target: Seq<char>)
    ensures
        appended(st, binary_code(env, ctx, st, b, target)),
    decreases ctx.depth, 0nat, b, 0nat,
{
    broadcast use group_grown, group_kept, group_stacked;

    match (b.operator, *b.left, *b.right) {
        (BinaryOp::Add, Expr::String_(l), Expr::String_(r)) => {
            lemma_str_code(st, target, parts_text(l.parts@) + parts_text(r.parts@));
        },
        (BinaryOp::Mul, Expr::String_(s), Expr::Integer(n)) => {
            lemma_str_code(st, target, repeated(parts_text(s.parts@), (n.value as usize) as nat));
        },
        (BinaryOp::Mul, Expr::Integer(n), Expr::String_(s)) => {
            lemma_str_code(st, target, repeated(parts_text(s.parts@), (n.value as usize) as nat));
        },
        (op, l, r) => {
            if r is Integer {
                lemma_expr_code(env, ctx, st, *b.left, "rax"@);
                let s1 = expr_code(env, ctx, st, *b.left, "rax"@);
                lemma_imm_op(s1.code, op, r->Integer_0.value as int);
                lemma_mov_rax(imm_op(s1.code, op, r->Integer_0.value as int), target);
            } else {
                lemma_expr_code(env, ctx, st, *b.left, "rax"@);
                let s1 = expr_code(env, ctx, st, *b.left, "rax"@);
                let s2 = s1.with(s1.code + "    push rax\n"@);
                lemma_expr_code(env, ctx, s2, *b.right, "rcx"@);
                let s3 = expr_code(env, ctx, s2, *b.right, "rcx"@);
                lemma_general_op(s3.code + "    pop rax\n"@, op);
                lemma_mov_rax(general_op(s3.code + "    pop rax\n"@, op), target);
            }
        },
    }
}

/// `args_code` appends.
proof fn lemma_args_code(env: Env, ctx: Ctx, st: Code, args: Seq<Expr>, copy: bool, k: nat)
    ensures
        appended(st, args_code(env, ctx, st, args, copy, k)),
    decreases ctx.depth, 0nat, args, args.len() + 1,
{
    broadcast use group_grown, group_kept, group_stacked;

    if k <= args.len() {
        lemma_direct_args(env, ctx, st, args, copy, k);
        lemma_pushed_args(env, ctx, st, args, k);
        lemma_pop_args(pushed_args(env, ctx, st, args, k).code, copy, k);
    }
}

/// `pushed_args` appends.
proof fn lemma_pushed_args(env: Env, ctx: Ctx, st: Code, args: Seq<Expr>, k: nat)
    ensures
        appended(st, pushed_args(env, ctx, st, args, k)),
    decreases ctx.depth, 0nat, args, k,
{
    broadcast use group_grown, group_kept, group_stacked;

    if !(k == 0 || k > args.len()) {
        lemma_pushed_args(env, ctx, st, args, (k - 1) as nat);
        lemma_expr_code(
            env,
            ctx,
            pushed_args(env, ctx, st, args, (k - 1) as nat),
            args[k - 1],
            "rax"@,
        );
    }
}

/// `pop_args` appends.
proof fn lemma_pop_args(out: Seq<char>, copy: bool, k: nat)
    ensures
        grown(out, pop_args(out, copy, k)),
    decreases k,
{
    broadcast use group_grown;

    reveal(pop_args);
    if k > 0 {
        lemma_pop_args(out + ins1("pop"@, arg_target(copy, k - 1)), copy, (k - 1) as nat);
    }
}

/// `direct_args` appends.
proof fn lemma_direct_args(
    env: Env,
    ctx: Ctx,
    st: Code,
    args: Seq<Expr>,
    copy: bool,
    k: nat,
)
    ensures
        appended(st, direct_args(env, ctx, st, args, copy, k)),
    decreases ctx.depth, 0nat, args, k,
{
    broadcast use group_grown, group_kept, group_stacked;

    if !(k == 0 || k > args.len()) {
        lemma_direct_args(env, ctx, st, args, copy, (k - 1) as nat);
        lemma_expr_code(
            env,
            ctx,
            direct_args(env, ctx, st, args, copy, (k - 1) as nat),
            args[k - 1],
            arg_target(copy, k - 1),
        );
    }
}

/// `real_call` appends.
proof fn lemma_real_call(
    env: Env,
    ctx: Ctx,
    st: Code,
    name: Seq<char>,
    args: Seq<Expr>,
    target: Seq<char>,
)
    ensures
        appended(st, real_call(env, ctx, st, name, args, target)),
    decreases ctx.depth, 0nat, args, args.len() + 2,
{
    broadcast use group_grown, group_kept, group_stacked;

    let n = if args.len() < 6 { args.len() } else { 6 };
    lemma_args_code(env, ctx, st, args, false, n);
    let s1 = args_code(env, ctx, st, args, false, n);
    lemma_mov_rax(s1.code + ins1("call"@, name), target);
}

/// `call_code` appends.
proof fn lemma_call_code(env: Env, ctx: Ctx, st: Code, c: CallExpr, target: Seq<char>)
    ensures
        appended(st, call_code(env, ctx, st, c, target)),
    decreases ctx.depth, 0nat, c, 2nat,
{
    broadcast use group_grown, group_kept, group_stacked;

    match *c.callee {
        Expr::Identifier(id) => {
            let n = id.name@;
            if is_builtin(n) {
                lemma_builtin_code(env, ctx, st, n, c, target);
            } else if ctx.depth > 0 && env.fns.contains_key(n) && inlineable(*env.fns[n]) && env.fns[n].params@.len() == c.args@.len() {
                lemma_inline_code(
                    env,
                    Ctx { depth: (ctx.depth - 1) as nat, ..ctx },
                    st,
                    *env.fns[n],
                    c,
                    target,
                );
            } else {
                lemma_real_call(env, ctx, st, n, c.args@, target);
            }
        },
        Expr::MemberAccess(m) => {
            let n = m.member.name@;
            if n == "load"@ {
                lemma_expr_code(
                    env,
                    ctx,
                    st.with(st.code + "    # volatile load\n"@),
                    *m.target,
                    target,
                );
            } else if n == "load_acquire"@ {
                lemma_expr_code(
                    env,
                    ctx,
                    st.with(st.code + "    # volatile load (acquire)\n"@),
                    *m.target,
                    target,
                );
            } else if n == "store"@ {
                lemma_arg_code(
                    env,
                    ctx,
                    st.with(st.code + "    # volatile store\n"@),
                    c.args@,
                    0,
                    target,
                );
            } else if n == "store_release"@ {
                lemma_arg_code(
                    env,
                    ctx,
                    st.with(
                        st.code + "    # volatile store (release)\n    # store_release — release fence\n    mfence\n"@,
                    ),
                    c.args@,
                    0,
                    target,
                );
            } else {
                lemma_expr_code(env, ctx, st, *m.target, target);
            }
        },
        _ => {},
    }
}

/// `arg_code` appends.
proof fn lemma_arg_code(env: Env, ctx: Ctx, st: Code, args: Seq<Expr>, i: int, target: Seq<char>)
    ensures
        appended(st, arg_code(env, ctx, st, args, i, target)),
    decreases ctx.depth, 0nat, args, 0nat,
{
    broadcast use group_grown, group_kept, group_stacked;

    if 0 <= i < args.len() {
        lemma_expr_code(env, ctx, st, args[i], target);
    }
}

/// `builtin_code` appends.
proof fn lemma_builtin_code(
    env: Env,
    ctx: Ctx,
    st: Code,
    n: Seq<char>,
    c: CallExpr,
    target: Seq<char>,
)
    ensures
        appended(st, builtin_code(env, ctx, st, n, c, target)),
    decreases ctx.depth, 0nat, c, 1nat,
{
    broadcast use group_grown, group_kept, group_stacked;

    if n == "memcpy"@ {
        lemma_args_code(env, ctx, st, c.args@, true, three_args(c.args@));
    } else if n == "memset"@ {
        lemma_arg_code(env, ctx, st, c.args@, 0, "rdi"@);
        let s1 = arg_code(env, ctx, st, c.args@, 0, "rdi"@);
        lemma_arg_code(env, ctx, s1, c.args@, 1, "rax"@);
        let s2 = arg_code(env, ctx, s1, c.args@, 1, "rax"@);
        lemma_arg_code(env, ctx, s2, c.args@, 2, "rcx"@);
        let s3 = arg_code(env, ctx, s2, c.args@, 2, "rcx"@);
        lemma_mov_rax(s3.code + "    cld\n    rep stosb\n"@, target);
    } else if n == "spin_lock"@ {
        lemma_arg_code(env, ctx, st, c.args@, 0, "rax"@);
        let s1 = arg_code(env, ctx, st, c.args@, 0, "rax"@);
        lemma_spin_loop(s1.code, lab(".Lspinlock_"@, s1.labels));
    } else if n == "spin_unlock"@ {
        lemma_arg_code(env, ctx, st, c.args@, 0, "rax"@);
    } else if n == "tls_get"@ {
        lemma_arg_code(env, ctx, st, c.args@, 0, "rcx"@);
        let s1 = arg_code(env, ctx, st, c.args@, 0, "rcx"@);
        lemma_mov_rax(s1.code + "    mov rax, [fs:rcx]\n"@, target);
    } else if n == "tls_set"@ {
        lemma_arg_code(env, ctx, st, c.args@, 0, "rcx"@);
        let s1 = arg_code(env, ctx, st, c.args@, 0, "rcx"@);
        lemma_arg_code(env, ctx, s1, c.args@, 1, "rax"@);
        let s2 = arg_code(env, ctx, s1, c.args@, 1, "rax"@);
        lemma_mov_rax(s2.code + "    mov [fs:rcx], rax\n"@, target);
    } else if n == "offsetof"@ {
    } else if !(n == "static_assert"@) {
        lemma_mov_rax(st.code + "    rdtsc\n    shl rdx, 32\n    or rax, rdx\n"@, target);
    }
}

/// `bind_params` appends.
proof fn lemma_bind_params(env: Env, ctx: Ctx, st: Code, f: FnDef, c: CallExpr, k: nat)
    ensures
        appended_but(st, bind_params(env, ctx, st, f, c, k).0, names_of(f.params@)),
    decreases ctx.depth, 3nat, c, k,
{
    broadcast use group_grown, group_kept, group_stacked;

    if !(k == 0 || k > f.params@.len() || k > c.args@.len()) {
        lemma_bind_params(env, ctx, st, f, c, (k - 1) as nat);
        let prev = bind_params(env, ctx, st, f, c, (k - 1) as nat);
        if !(!prev.1) {
            lemma_expr_code(env, ctx, prev.0, c.args@[k - 1], "rax"@);
            let s1 = expr_code(env, ctx, prev.0, c.args@[k - 1], "rax"@);
            let p = names_of(f.params@);
            lemma_kept_but(prev.0.vars, s1.vars, p);
            if s1.next < 4 {
                let vars = s1.vars.insert(f.params@[k - 1].name.name@, VarLoc::Reg(s1.next));
                assert(kept(s1.vars, vars, p));
                assert(stacked(s1.vars, s1.off, vars, s1.off));
            }
        }
    }
}

/// `inline_code` appends.
proof fn lemma_inline_code(env: Env, ctx: Ctx, st: Code, f: FnDef, c: CallExpr, target: Seq<char>)
    ensures
        appended(st, inline_code(env, ctx, st, f, c, target)),
    decreases ctx.depth, 4nat, c, 0nat,
{
    broadcast use group_grown, group_kept, group_stacked;

    let params = f.params@;
    let end = lab(".Linl_"@, st.labels);
    lemma_bind_params(env, ctx, Code { epi: Some(end), ..st.labelled() }, f, c, params.len());
    let bound = bind_params(env, ctx, Code { epi: Some(end), ..st.labelled() }, f, c, params.len());
    let s1 = bound.0;
    lemma_kept_restored(st.vars, s1.vars, params);
    lemma_stacked_restored(st.vars, st.off, s1.vars, s1.off, params);
    if !bound.1 {
        let s2 = Code {
            next: st.next,
            vars: restored(s1.vars, st.vars, params, params.len()),
            ..s1
        };
        lemma_real_call(env, ctx, s2, f.name.name@, c.args@, target);
    } else {
        lemma_stmts_code(env, ctx, s1, f.body@, f.body@.len());
        let s2 = stmts_code(env, ctx, s1, f.body@, f.body@.len());
        lemma_kept_but(s1.vars, s2.vars, names_of(params));
        lemma_kept_restored(st.vars, s2.vars, params);
        lemma_stacked_restored(st.vars, st.off, s2.vars, s2.off, params);
        lemma_mov_rax(s2.code + label_line(end), target);
    }
}

/// `lambda_code` appends.
proof fn lemma_lambda_code(env: Env, ctx: Ctx, st: Code, l: LambdaExpr, target: Seq<char>)
    ensures
        appended(st, lambda_code(env, ctx, st, l, target)),
    decreases ctx.depth, 0nat, l, 0nat,
{
    broadcast use group_grown, group_kept, group_stacked;

    let name = lab("__lambda_"@, st.lambdas);
    let free = sorted_set(free_names(*l.body, param_names(l.params@)));
    lemma_captures(Code { lambdas: bump(st.lambdas), ..st }, name, free, free.len());
    let s1 = captures(Code { lambdas: bump(st.lambdas), ..st }, name, free, free.len());
    lemma_bind_args(enter_fn(s1), l.params@, l.params@.len());
    let s2 = bind_args(enter_fn(s1), l.params@, l.params@.len());
    lemma_expr_code(env, ctx, s2, *l.body, "rax"@);
    lemma_return_jump(expr_code(env, ctx, s2, *l.body, "rax"@));
}

/// `stmts_code` appends.
proof fn lemma_stmts_code(env: Env, ctx: Ctx, st: Code, ss: Seq<Stmt>, k: nat)
    ensures
        appended(st, stmts_code(env, ctx, st, ss, k)),
    decreases ctx.depth, 3nat, ss, k,
{
    broadcast use group_grown, group_kept, group_stacked;

    if !(k == 0 || k > ss.len()) {
        lemma_stmts_code(env, ctx, st, ss, (k - 1) as nat);
        lemma_stmt_code(env, ctx, stmts_code(env, ctx, st, ss, (k - 1) as nat), ss[k - 1]);
    }
}

/// `stmt_code` appends.
proof fn lemma_stmt_code(env: Env, ctx: Ctx, st: Code, s: Stmt)
    ensures
        appended(st, stmt_code(env, ctx, st, s)),
    decreases ctx.depth, 3nat, s, 0nat,
{
    broadcast use group_grown, group_kept, group_stacked;

    match s {
        Stmt::Assign(x) => {
            if x.targets@.len() > 0 {
                match x.targets@[0] {
                    Assignee::Identifier(id) => {
                        lemma_place_var(st, id.name@);
                        let (loc, s1) = place_var(st, id.name@);
                        lemma_expr_code(env, ctx, s1, x.value, "rax"@);
                        let s2 = expr_code(env, ctx, s1, x.value, "rax"@);
                        lemma_store_var(s2.code, loc, "rax"@);
                    },
                    _ => {},
                }
            }
        },
        Stmt::Return(r) => {
            lemma_expr_code(env, ctx, st, r.values@[0], "rax"@);
            lemma_return_jump(
                if r.values@.len() > 0 {
                    expr_code(env, ctx, st, r.values@[0], "rax"@)
                } else {
                    st.with(st.code + "    mov rax, 0\n"@)
                },
            );
        },
        Stmt::If(i) => {
            lemma_if_code(env, ctx, st, i);
        },
        Stmt::While(w) => {
            lemma_while_code(env, ctx, st, w);
        },
        Stmt::Loop(l) => {
            let start = lab(".Lloop_"@, st.labels);
            let end = lab(".Lloopend_"@, st.labels);
            let s1 = st.labelled().with(st.code + label_line(start));
            lemma_stmts_code(
                env,
                Ctx { loops: ctx.loops.push((start, end)), ..ctx },
                s1,
                l.body@,
                l.body@.len(),
            );
        },
        Stmt::Break(b) => {
            lemma_break_text(st.code, ctx.loops, b.label);
        },
        Stmt::Continue(c) => {
            lemma_continue_text(st.code, ctx.loops, c.label);
        },
        Stmt::ForRange(fr) => {
            lemma_for_range_code(env, ctx, st, fr);
        },
        Stmt::ForIn(fi) => {
            lemma_for_in_code(env, ctx, st, fi);
        },
        Stmt::Expr(e) => {
            lemma_expr_code(env, ctx, st, e.expr, "rax"@);
        },
        Stmt::Println(p) => {
            lemma_print_args(env, ctx, st, p.args@, p.args@.len());
            lemma_newline_code(print_args(env, ctx, st, p.args@, p.args@.len()));
        },
        Stmt::UnsafeBlock(u) => {
            lemma_stmts_code(env, ctx, st, u.body@, u.body@.len());
        },
        Stmt::Asm(x) => {
            lemma_asm_code(env, ctx, st, x);
        },
        Stmt::Try(t) => {
            lemma_try_code(env, ctx, st, t);
        },
        Stmt::Throw(t) => {
            lemma_expr_code(env, ctx, st, t.value, "rax"@);
            let s1 = expr_code(env, ctx, st, t.value, "rax"@);
            lemma_raise(s1.code);
        },
        Stmt::Panic(p) => {
            lemma_expr_code(env, ctx, st, p.message, "rax"@);
            let s1 = expr_code(env, ctx, st, p.message, "rax"@);
            lemma_raise(s1.code);
        },
        _ => {},
    }
}

/// `break_text` appends.
proof fn lemma_break_text(out: Seq<char>, loops: Seq<(Seq<char>, Seq<char>)>, label: Option<Identifier>)
    ensures
        grown(out, break_text(out, loops, label)),
{
    broadcast use group_grown, group_kept, group_stacked;

    reveal(break_text);
}

/// `continue_text` appends.
proof fn lemma_continue_text(out: Seq<char>, loops: Seq<(Seq<char>, Seq<char>)>, label: Option<Identifier>)
    ensures
        grown(out, continue_text(out, loops, label)),
{
    broadcast use group_grown, group_kept, group_stacked;

    reveal(continue_text);
}

/// `cond_code` appends.
proof fn lemma_cond_code(env: Env, ctx: Ctx, st: Code, e: Expr, skip: Seq<char>)
    ensures
        appended(st, cond_code(env, ctx, st, e, skip)),
    decreases ctx.depth, 2nat, e, 0nat,
{
    broadcast use group_grown, group_kept, group_stacked;

    match e {
        Expr::Binary(b) => {
            match cond_of(b.operator) {
                Some(c) => {
                    lemma_expr_code(env, ctx, st, *b.left, "rax"@);
                    let s1 = expr_code(env, ctx, st, *b.left, "rax"@);
                    let s2 = s1.with(s1.code + "    push rax\n"@);
                    lemma_expr_code(env, ctx, s1, *b.right, "rcx"@);
                    lemma_expr_code(env, ctx, s2, *b.right, "rcx"@);
                },
                None => {
                    lemma_plain_cond(env, ctx, st, e, skip);
                },
            }
        },
        _ => {
            lemma_plain_cond(env, ctx, st, e, skip);
        },
    }
}

/// `plain_cond` appends.
proof fn lemma_plain_cond(env: Env, ctx: Ctx, st: Code, e: Expr, skip: Seq<char>)
    ensures
        appended(st, plain_cond(env, ctx, st, e, skip)),
    decreases ctx.depth, 1nat, e, 0nat,
{
    broadcast use group_grown, group_kept, group_stacked;

    lemma_expr_code(env, ctx, st, e, "rax"@);
}

/// `if_code` appends.
proof fn lemma_if_code(env: Env, ctx: Ctx, st: Code, i: IfStmt)
    ensures
        appended(st, if_code(env, ctx, st, i)),
    decreases ctx.depth, 3nat, i, 0nat,
{
    broadcast use group_grown, group_kept, group_stacked;

    let skip = lab(".Lelse_"@, st.labels);
    let end = lab(".Lend_"@, st.labels);
    lemma_cond_code(env, ctx, st.labelled(), i.condition, skip);
    let s1 = cond_code(env, ctx, st.labelled(), i.condition, skip);
    lemma_stmts_code(env, ctx, s1, i.then_body@, i.then_body@.len());
    let s2 = stmts_code(env, ctx, s1, i.then_body@, i.then_body@.len());
    let s3 = s2.with(s2.code + ins1("jmp"@, end) + label_line(skip));
    match i.else_body {
        Some(b) => {
            lemma_stmts_code(env, ctx, s3, b@, b@.len());
        },
        _ => {},
    }
}

/// `while_code` appends.
proof fn lemma_while_code(env: Env, ctx: Ctx, st: Code, w: WhileStmt)
    ensures
        appended(st, while_code(env, ctx, st, w)),
    decreases ctx.depth, 3nat, w, 0nat,
{
    broadcast use group_grown, group_kept, group_stacked;

    let start = lab(".Lwhile_"@, st.labels);
    let end = lab(".Lwend_"@, st.labels);
    let inner = Ctx { loops: ctx.loops.push((start, end)), ..ctx };
    lemma_expr_code(
        env,
        inner,
        st.labelled().with(st.code + label_line(start)),
        w.condition,
        "rax"@,
    );
    let s1 = expr_code(env, inner, st.labelled().with(st.code + label_line(start)), w.condition, "rax"@);
    let s2 = s1.with(s1.code + "    cmp rax, 0\n"@ + ins1("je"@, end));
    lemma_stmts_code(env, inner, s2, w.body@, w.body@.len());
}

/// `opt_code` appends.
proof fn lemma_opt_code(env: Env, ctx: Ctx, st: Code, e: Option<Box<Expr>>, target: Seq<char>)
    ensures
        appended(st, opt_code(env, ctx, st, e, target)),
    decreases ctx.depth, 1nat, e, 0nat,
{
    broadcast use group_grown, group_kept, group_stacked;

    match e {
        Some(x) => {
            lemma_expr_code(env, ctx, st, *x, target);
        },
        _ => {},
    }
}

/// `step_code` appends.
proof fn lemma_step_code(env: Env, ctx: Ctx, st: Code, e: Option<Box<Expr>>, slot: i32)
    ensures
        appended(st, step_code(env, ctx, st, e, slot)),
    decreases ctx.depth, 1nat, e, 0nat,
{
    broadcast use group_grown, group_kept, group_stacked;

    match e {
        Some(x) => {
            lemma_expr_code(env, ctx, st, *x, "rax"@);
        },
        _ => {},
    }
}

/// `for_range_code` appends.
proof fn lemma_for_range_code(env: Env, ctx: Ctx, st: Code, fr: ForRangeStmt)
    ensures
        appended(st, for_range_code(env, ctx, st, fr)),
    decreases ctx.depth, 3nat, fr, 0nat,
{
    let id = st.labels;
    let bound = down8(st.off);
    let step = down8(bound);
    lemma_range_entry(st);
    lemma_expr_code(env, ctx, range_entry(st), fr.from, "rax"@);
    let s1 = expr_code(env, ctx, range_entry(st), fr.from, "rax"@);
    lemma_place_var(s1, fr.var.name@);
    let (loc, s2) = place_var(s1, fr.var.name@);
    lemma_store_var(s2.code, loc, "rax"@);
    lemma_expr_code(env, ctx, s2.with(store_var(s2.code, loc, "rax"@)), fr.to, "rax"@);
    let s3 = expr_code(env, ctx, s2.with(store_var(s2.code, loc, "rax"@)), fr.to, "rax"@);
    let s4 = s3.with(s3.code + store_slot(bound as int, "rax"@));
    lemma_step_code(env, ctx, s4, fr.step, step);
    let s5 = step_code(env, ctx, s4, fr.step, step);
    lemma_range_head(s5.code, id, loc, bound, step);
    let s6 = s5.with(range_head(s5.code, id, loc, bound, step));
    lemma_stmts_code(env, range_ctx(ctx, id), s6, fr.body@, fr.body@.len());
    let s7 = stmts_code(env, range_ctx(ctx, id), s6, fr.body@, fr.body@.len());
    lemma_range_tail(s7.code, id, loc, step);
    let stored = s2.with(store_var(s2.code, loc, "rax"@));
    lemma_with(s2, stored.code);
    lemma_grown_add(s3.code, store_slot(bound as int, "rax"@));
    lemma_with(s3, s4.code);
    lemma_with(s5, s6.code);
    let last = s7.with(range_tail(s7.code, id, loc, step));
    lemma_with(s7, last.code);
    lemma_then(st, range_entry(st), s1);
    lemma_then(st, s1, s2);
    lemma_then(st, s2, stored);
    lemma_then(st, stored, s3);
    lemma_then(st, s3, s4);
    lemma_then(st, s4, s5);
    lemma_then(st, s5, s6);
    lemma_then(st, s6, s7);
    lemma_then(st, s7, last);
}

/// `for_in_code` appends.
proof fn lemma_for_in_code(env: Env, ctx: Ctx, st: Code, fi: ForInStmt)
    ensures
        appended(st, for_in_code(env, ctx, st, fi)),
    decreases ctx.depth, 3nat, fi, list_len(fi.iterable) + 1,
{
    broadcast use group_grown, group_kept, group_stacked;

    match fi.iterable {
        Expr::String_(s) => {
            lemma_str_loop_code(env, ctx, st, fi, parts_text(s.parts@));
        },
        Expr::Range(r) => {
            lemma_range_loop_code(env, ctx, st, fi, r);
        },
        Expr::List(l) => {
            lemma_unrolled(env, ctx, st, fi, l.elements@.len());
        },
        _ => {},
    }
}

/// `str_loop_code` appends.
proof fn lemma_str_loop_code(env: Env, ctx: Ctx, st: Code, fi: ForInStmt, t: Seq<char>)
    ensures
        appended(st, str_loop_code(env, ctx, st, fi, t)),
    decreases ctx.depth, 3nat, fi, 0nat,
{
    broadcast use group_grown, group_kept, group_stacked;

    let cond = lab(".Lfistrcond_"@, st.labels);
    let end = lab(".Lfistrend_"@, st.labels);
    lemma_place_var(st.intern(t).labelled(), fi.var.name@);
    let (loc, s1) = place_var(st.intern(t).labelled(), fi.var.name@);
    lemma_str_loop_head(s1.code, st.strs.len(), byte_len(t) as nat, cond, end);
    let o = str_loop_head(s1.code, st.strs.len(), byte_len(t) as nat, cond, end);
    lemma_store_var(o, loc, "rax"@);
    lemma_stmts_code(
        env,
        Ctx { loops: ctx.loops.push((cond, end)), ..ctx },
        s1.with(store_var(o, loc, "rax"@)),
        fi.body@,
        fi.body@.len(),
    );
}

/// `range_loop_code` appends.
proof fn lemma_range_loop_code(env: Env, ctx: Ctx, st: Code, fi: ForInStmt, r: RangeExpr)
    ensures
        appended(st, range_loop_code(env, ctx, st, fi, r)),
    decreases ctx.depth, 3nat, fi, 0nat,
{
    let id = st.labels;
    let bound = down8(st.off);
    let step = down8(bound);
    lemma_range_entry(st);
    lemma_opt_code(env, ctx, range_entry(st), r.start, "rax"@);
    let s1 = opt_code(env, ctx, range_entry(st), r.start, "rax"@);
    lemma_place_var(s1, fi.var.name@);
    let (loc, s2) = place_var(s1, fi.var.name@);
    lemma_store_var(s2.code, loc, "rax"@);
    lemma_opt_code(env, ctx, s2.with(store_var(s2.code, loc, "rax"@)), r.end, "rax"@);
    let s3 = opt_code(env, ctx, s2.with(store_var(s2.code, loc, "rax"@)), r.end, "rax"@);
    let s4 = s3.with(s3.code + store_slot(bound as int, "rax"@));
    lemma_step_code(env, ctx, s4, r.step, step);
    let s5 = step_code(env, ctx, s4, r.step, step);
    lemma_range_head(s5.code, id, loc, bound, step);
    let s6 = s5.with(range_head(s5.code, id, loc, bound, step));
    lemma_stmts_code(env, range_ctx(ctx, id), s6, fi.body@, fi.body@.len());
    let s7 = stmts_code(env, range_ctx(ctx, id), s6, fi.body@, fi.body@.len());
    lemma_range_tail(s7.code, id, loc, step);
    let stored = s2.with(store_var(s2.code, loc, "rax"@));
    lemma_with(s2, stored.code);
    lemma_grown_add(s3.code, store_slot(bound as int, "rax"@));
    lemma_with(s3, s4.code);
    lemma_with(s5, s6.code);
    let last = s7.with(range_tail(s7.code, id, loc, step));
    lemma_with(s7, last.code);
    lemma_then(st, range_entry(st), s1);
    lemma_then(st, s1, s2);
    lemma_then(st, s2, stored);
    lemma_then(st, stored, s3);
    lemma_then(st, s3, s4);
    lemma_then(st, s4, s5);
    lemma_then(st, s5, s6);
    lemma_then(st, s6, s7);
    lemma_then(st, s7, last);
}

/// `unrolled` appends.
proof fn lemma_unrolled(env: Env, ctx: Ctx, st: Code, fi: ForInStmt, k: nat)
    ensures
        appended(st, unrolled(env, ctx, st, fi, k)),
    decreases ctx.depth, 3nat, fi, k,
{
    broadcast use group_grown, group_kept, group_stacked;

    let elems = fi.iterable->List_0.elements@;
    if !(k == 0 || k > list_len(fi.iterable)) {
        lemma_unrolled(env, ctx, st, fi, (k - 1) as nat);
        let prev = unrolled(env, ctx, st, fi, (k - 1) as nat);
        lemma_expr_code(env, ctx, prev, elems[k - 1], "rax"@);
        let s1 = expr_code(env, ctx, prev, elems[k - 1], "rax"@);
        lemma_place_var(s1, fi.var.name@);
        let (loc, s2) = place_var(s1, fi.var.name@);
        lemma_store_var(s2.code, loc, "rax"@);
        lemma_stmts_code(
            env,
            ctx,
            s2.with(store_var(s2.code, loc, "rax"@)),
            fi.body@,
            fi.body@.len(),
        );
    }
}

/// `print_args` appends.
proof fn lemma_print_args(env: Env, ctx: Ctx, st: Code, args: Seq<Expr>, k: nat)
    ensures
        appended(st, print_args(env, ctx, st, args, k)),
    decreases ctx.depth, 1nat, args, k,
{
    broadcast use group_grown, group_kept, group_stacked;

    if !(k == 0 || k > args.len()) {
        lemma_print_args(env, ctx, st, args, (k - 1) as nat);
        let prev = print_args(env, ctx, st, args, (k - 1) as nat);
        match args[k - 1] {
            Expr::String_(s) => {
                let t = parts_text(s.parts@);
                lemma_write_str(prev.code, prev.strs.len(), byte_len(t) as nat);
            },
            _ => {
                lemma_expr_code(env, ctx, prev, args[k - 1], "rax"@);
                lemma_print_int_code(expr_code(env, ctx, prev, args[k - 1], "rax"@));
            },
        }
    }
}

/// `inputs_code` appends.
proof fn lemma_inputs_code(env: Env, ctx: Ctx, st: Code, ops: Seq<AsmOperand>, base: nat, k: nat)
    ensures
        appended(st, inputs_code(env, ctx, st, ops, base, k)),
    decreases ctx.depth, 1nat, ops, k,
{
    broadcast use group_grown, group_kept, group_stacked;

    if !(k == 0 || k > ops.len()) {
        lemma_inputs_code(env, ctx, st, ops, base, (k - 1) as nat);
        lemma_expr_code(
            env,
            ctx,
            inputs_code(env, ctx, st, ops, base, (k - 1) as nat),
            ops[k - 1].expr,
            scratch_reg(base + k - 1),
        );
    }
}

/// `asm_code` appends.
proof fn lemma_asm_code(env: Env, ctx: Ctx, st: Code, x: AsmStmt)
    ensures
        appended(st, asm_code(env, ctx, st, x)),
    decreases ctx.depth, 2nat, x, 0nat,
{
    broadcast use group_grown, group_kept, group_stacked;

    let outs = x.outputs@;
    let ins = x.inputs@;
    let total = outs.len() + ins.len();
    lemma_template_comments(st.code, x);
    let o1 = template_comments(st.code, x);
    let ls = lines(x.template@);
    if !(total > 9) {
        lemma_inputs_code(env, ctx, st.with(o1), ins, outs.len(), ins.len());
        let s1 = inputs_code(env, ctx, st.with(o1), ins, outs.len(), ins.len());
        let o2 = s1.code + template_lines(ls, Some(scratch_regs(total)), ls.len());
        lemma_store_outputs(o2, s1.vars, outs, outs.len());
    }
}

/// `block_code` appends.
proof fn lemma_block_code(env: Env, ctx: Ctx, st: Code, b: Option<Vec<Stmt>>)
    ensures
        appended(st, block_code(env, ctx, st, b)),
    decreases ctx.depth, 3nat, b, 0nat,
{
    broadcast use group_grown, group_kept, group_stacked;

    match b {
        Some(v) => {
            lemma_stmts_code(env, ctx, st, v@, v@.len());
        },
        _ => {},
    }
}

/// `try_code` appends.
proof fn lemma_try_code(env: Env, ctx: Ctx, st: Code, t: TryStmt)
    ensures
        appended(st, try_code(env, ctx, st, t)),
    decreases ctx.depth, 3nat, t, 0nat,
{
    broadcast use group_grown, group_kept, group_stacked;

    let catch_label = lab(".Lcatch_"@, st.labels);
    let end = lab(".Ltryend_"@, st.labels);
    lemma_push_handler(st.code, catch_label);
    lemma_stmts_code(
        env,
        ctx,
        st.labelled().with(push_handler(st.code, catch_label)),
        t.try_body@,
        t.try_body@.len(),
    );
    let s1 = stmts_code(
        env,
        ctx,
        st.labelled().with(push_handler(st.code, catch_label)),
        t.try_body@,
        t.try_body@.len(),
    );
    lemma_block_code(env, ctx, s1.with(s1.code + pop_handler()), t.finally_body);
    let s2 = block_code(env, ctx, s1.with(s1.code + pop_handler()), t.finally_body);
    let s3 = s2.with(s2.code + ins1("jmp"@, end) + label_line(catch_label) + pop_handler());
    match t.catch_var {
        Some(v) => {
            lemma_place_var(s3, v.name@);
            let (loc, s) = place_var(s3, v.name@);
            lemma_store_var(s.code, loc, "rax"@);
        },
        _ => {},
    }
    let s4 = match t.catch_var { Some(v) => { let (loc, s) = place_var(s3, v.name@); s.with(store_var(s.code, loc, "rax"@)) }, None => s3, };
    lemma_block_code(env, ctx, s4, t.catch_body);
    let s5 = block_code(env, ctx, s4, t.catch_body);
    lemma_block_code(env, ctx, s5, t.finally_body);
}

/// `dtors_code` appends.
proof fn lemma_dtors_code(env: Env, st: Code, vars: Seq<(Seq<char>, Seq<char>)>, k: nat)
    ensures
        appended(st, dtors_code(env, st, vars, k)),
    decreases k,
{
    broadcast use group_grown, group_kept, group_stacked;

    reveal(dtors_code);
    if !(k == 0 || k > vars.len()) {
        lemma_dtors_code(env, st, vars, (k - 1) as nat);
        let prev = dtors_code(env, st, vars, (k - 1) as nat);
        let t = vars[k - 1].1;
        let s1 = prev.with(prev.code + "    # dtor: calling ~"@ + t + " for "@ + vars[k - 1].0 + "\n"@);
        if env.dtors.contains_key(t) {
            lemma_stmts_code(env, top_ctx(), s1, env.dtors[t].body@, env.dtors[t].body@.len());
        }
    }
}

/// `top_code` appends.
proof fn lemma_top_code(env: Env, st: Code, decls: Seq<&TopLevel>, k: nat)
    ensures
        appended(st, top_code(env, st, decls, k)),
    decreases k,
{
    broadcast use group_grown, group_kept, group_stacked;

    reveal(top_code);
    if !(k == 0 || k > decls.len()) {
        lemma_top_code(env, st, decls, (k - 1) as nat);
        let prev = top_code(env, st, decls, (k - 1) as nat);
        match *decls[k - 1] {
            TopLevel::Statement(s) => {
                lemma_stmt_code(env, top_ctx(), prev, s);
            },
            _ => {},
        }
    }
}

/// Every step only appends: whatever a statement is compiled to, the code, the
/// functions, the string constants and the errors that were there stay in front
/// of it.
pub proof fn law_statements_only_append(env: Env, ctx: Ctx, st: Code, s: Stmt)
    ensures
        appended(st, stmt_code(env, ctx, st, s)),
{
    lemma_stmt_code(env, ctx, st, s);
}

/// A statement moves no variable: each has the location behind it that it had
/// before. No two variables share a stack slot, for as long as the offsets do not
/// run out: where every variable in a slot has one of its own before the
/// statement, so it is behind it, and a new one gets a slot below those in use.
pub proof fn law_variables_keep_their_places(env: Env, ctx: Ctx, st: Code, s: Stmt)
    ensures
        ({
            let b = stmt_code(env, ctx, st, s);
            &&& forall|n: Seq<char>| #[trigger]
                st.vars.contains_key(n) ==> b.vars.contains_key(n) && b.vars[n] == st.vars[n]
            &&& own_slots(st.vars, st.off) && b.off > i32::MIN ==> own_slots(b.vars, b.off)
                && new_slots(st.vars, st.off, b.vars)
        }),
{
    lemma_stmt_code(env, ctx, st, s);
    reveal(kept);
    reveal(stacked);
}

/// The variables that the allocator counts as live are where it has put them:
/// every one of them that is in scope is in the register that the allocator holds
/// for it, and no two of them are in the same one.
pub open spec fn in_step(st: Code) -> bool {
    &&& registers_sound(st.alloc)
    &&& st.alloc.regs == pool()
    &&& forall|k: int|
        0 <= k < st.alloc.active.len() ==> held_in_place(st, #[trigger] st.alloc.active[k])
}

/// The variable of a holding, where it is in scope, is in the register of the
/// holding.
pub open spec fn held_in_place(st: Code, h: Holding) -> bool {
    st.vars.contains_key(h.var) ==> st.vars[h.var] == VarLoc::Reg(pool_index(h.reg))
}

/// Live variables keep their registers: where the variables that the allocator
/// counts as live are where it has put them, so they are when one more variable
/// has got its place.
pub proof fn law_live_variables_are_where_the_allocator_has_them(st: Code, n: Seq<char>)
    requires
        in_step(st),
    ensures
        in_step(place_var(st, n).1),
{
    reveal(place_var);
    if !st.vars.contains_key(n) {
        let pos = bump(st.pos);
        let s = AllocState { pos: bump(st.alloc.pos), ..st.alloc };
        let end = twenty_on(pos);
        assert forall|i: int, j: int|
            #![trigger s.active[i], s.active[j]]
            0 <= i < j < s.active.len() implies s.active[i].reg != s.active[j].reg
            && s.active[i].var != s.active[j].var by {
            assert(st.alloc.active[i].reg != st.alloc.active[j].reg);
        }
        assert forall|i: int| 0 <= i < s.active.len() implies s.regs.contains(
            (#[trigger] s.active[i]).reg,
        ) && place_of(s.places, s.active[i].var) == Some(Place::Register(s.active[i].reg)) by {
            assert(st.alloc.regs.contains(st.alloc.active[i].reg));
        }
        assert(registers_sound(s));
        law_live_variables_keep_their_registers(s, n, pos, end);
        let b = place_var(st, n).1;
        let (t, p) = allocated(s, n, pos, end);
        law_allocation_is_stable(s, n, pos, end);
        assert forall|k: int| 0 <= k < t.active.len() implies held_in_place(
            b,
            #[trigger] t.active[k],
        ) by {
            let h = t.active[k];
            assert(place_of(t.places, h.var) == Some(Place::Register(h.reg)));
            if h.var == n {
                assert(p == Place::Register(h.reg));
            } else {
                lemma_old_holding(s, n, pos, end, k);
                let i = choose|i: int| 0 <= i < s.active.len() && s.active[i] == h;
                assert(held_in_place(st, st.alloc.active[i]));
            }
        }
    }
}

/// The registers of the pool differ, and each has its own index.
proof fn lemma_pool()
    ensures
        forall|i: int, j: int|
            #![trigger pool_reg(i), pool_reg(j)]
            0 <= i < j < 4 ==> pool_reg(i) != pool_reg(j),
        forall|i: int| 0 <= i < 4 ==> pool_index(#[trigger] pool_reg(i)) == i,
{
    reveal(pool_reg);
    reveal(pool_index);
    reveal_strlit("rbx");
    reveal_strlit("r13");
    reveal_strlit("r14");
    reveal_strlit("r15");
    let (a, b, c, d) = ("rbx"@, "r13"@, "r14"@, "r15"@);
    assert(a[1] != b[1] && a[1] != c[1] && a[1] != d[1]);
    assert(b[2] != c[2] && b[2] != d[2] && c[2] != d[2]);
}

/// Holdings that never end do not expire.
proof fn lemma_unending(active: Seq<Holding>, pos: usize)
    requires
        forall|i: int| 0 <= i < active.len() ==> (#[trigger] active[i]).end > pos,
    ensures
        unexpired(active, pos) == active,
    decreases active.len(),
{
    if active.len() > 0 {
        lemma_unending(active.drop_last(), pos);
        assert(active.drop_last().push(active.last()) =~= active);
    } else {
        assert(unexpired(active, pos) =~= active);
    }
}

/// The first free register of the pool while the first `k` are held.
proof fn lemma_next_register(active: Seq<Holding>, k: int, i: int)
    requires
        0 <= i <= k < 4,
        active.len() == k,
        forall|j: int| 0 <= j < k ==> (#[trigger] active[j]).reg == pool_reg(j),
    ensures
        first_free(pool(), active, i) == Some(k),
    decreases k - i,
{
    lemma_pool();
    assert(pool()[i] == pool_reg(i));
    if i < k {
        assert(active[i].reg == pool()[i]);
        lemma_next_register(active, k, i + 1);
    } else {
        assert(!held(active, pool_reg(k)));
    }
}

/// The allocator holds the pool registers in which the parameters are.
proof fn lemma_bound_params(st: Code, params: Seq<FnParam>, k: nat)
    requires
        st.vars == Map::<Seq<char>, VarLoc>::empty(),
        st.alloc == fresh_alloc(pool(), 0),
        different(params),
        k <= params.len(),
    ensures
        ({
            let b = bind_args(st, params, k);
            &&& in_step(b)
            &&& b.alloc.active.len() == (if k < 4 {
                k
            } else {
                4
            })
            &&& forall|j: int|
                0 <= j < b.alloc.active.len() ==> #[trigger] b.alloc.active[j] == (Holding {
                    reg: pool_reg(j),
                    var: params[j].name.name@,
                    end: usize::MAX,
                })
            &&& forall|j: int|
                k <= j < params.len() ==> place_of(
                    b.alloc.places,
                    (#[trigger] params[j]).name.name@,
                ) is None
        }),
    decreases k,
{
    reveal(bind_args);
    lemma_pool();
    if k > 0 {
        lemma_bound_params(st, params, (k - 1) as nat);
        let prev = bind_args(st, params, (k - 1) as nat);
        let b = bind_args(st, params, k);
        let n = params[k - 1].name.name@;
        let active = prev.alloc.active;
        if k <= 4 {
            lemma_unending(active, 0);
            lemma_next_register(active, k - 1, 0);
            assert(pool()[k - 1] == pool_reg(k - 1));
            law_live_variables_keep_their_registers(prev.alloc, n, 0, usize::MAX);
            assert forall|j: int|
                k <= j < params.len() implies place_of(
                b.alloc.places,
                (#[trigger] params[j]).name.name@,
            ) is None by {
                assert(params[k - 1].name.name@ != params[j].name.name@);
                lemma_put(
                    prev.alloc.places,
                    n,
                    Place::Register(pool_reg(k - 1)),
                    params[j].name.name@,
                );
            }
        }
        assert forall|j: int| 0 <= j < b.alloc.active.len() implies held_in_place(
            b,
            #[trigger] b.alloc.active[j],
        ) by {
            if j < k - 1 {
                assert(b.alloc.active[j] == active[j]);
                assert(params[j].name.name@ != params[k - 1].name.name@);
                assert(held_in_place(prev, active[j]));
            }
        }
    }
}

/// No two parameters have the same name.
pub open spec fn different(params: Seq<FnParam>) -> bool {
    forall|i: int, j: int|
        #![trigger params[i], params[j]]
        0 <= i < j < params.len() ==> params[i].name.name@ != params[j].name.name@
}

/// At the start of a function the parameters in registers are where the allocator
/// has them.
pub proof fn law_parameters_are_where_the_allocator_has_them(env: Env, st: Code, f: FnDef)
    requires
        st.alloc.regs == pool(),
        different(f.params@),
    ensures
        in_step(body_entry(env, st, f)),
{
    let s0 = enter_fn(st);
    let s1 = if dtor_vars(env.dtors.dom(), f.body@, f.body@.len()).len() == 0 {
        s0
    } else {
        Code { epi: Some(exit_label(env, st, f)), ..s0.labelled() }
    };
    lemma_bound_params(s1, f.params@, 0);
    lemma_bound_params(s1, f.params@, f.params@.len());
    reveal(bind_args);
}

/// The holdings behind an allocation, but for the one of the new variable, were
/// there before.
proof fn lemma_old_holding(s: AllocState, n: Seq<char>, start: usize, end: usize, k: int)
    requires
        registers_sound(s),
        0 <= k < allocated(s, n, start, end).0.active.len(),
        allocated(s, n, start, end).0.active[k].var != n,
    ensures
        exists|i: int|
            0 <= i < s.active.len() && s.active[i] == allocated(s, n, start, end).0.active[k],
{
    let t = allocated(s, n, start, end).0;
    if place_of(s.places, n) is None {
        let active = unexpired(s.active, start);
        lemma_unexpired(s, s.active, start);
        let f = furthest(active, active.len() as int);
        if active.len() > 0 {
            lemma_furthest(active, active.len() as int);
        }
        match first_free(s.regs, active, 0) {
            Some(_) => {
                assert(t.active[k] == active[k]);
            },
            None => {
                if active.len() == 0 || active[f].end > end {
                    assert(t.active[k] == active[k]);
                } else if k < f {
                    assert(t.active[k] == active[k]);
                } else {
                    assert(t.active[k] == active[k + 1]);
                }
            },
        }
    } else {
        assert(s.active[k] == t.active[k]);
    }
}

/// The stack slots of the variables of a function lie below the room for the
/// saved registers, each apart from the others, anywhere in its body, for as long
/// as the offsets do not run out.
pub proof fn law_functions_keep_their_slots_apart(env: Env, st: Code, f: FnDef, k: nat)
    ensures
        ({
            let here = stmts_code(env, top_ctx(), body_entry(env, st, f), f.body@, k);
            here.off > i32::MIN ==> {
                &&& own_slots(here.vars, here.off)
                &&& forall|n: Seq<char>| #[trigger]
                    here.vars.contains_key(n) ==> (here.vars[n] matches VarLoc::Stack(o) ==> o + 8
                        <= SLOTS_TOP)
            }
        }),
{
    broadcast use group_grown, group_kept, group_stacked;

    let s0 = enter_fn(st);
    let s1 = if dtor_vars(env.dtors.dom(), f.body@, f.body@.len()).len() == 0 {
        s0
    } else {
        Code { epi: Some(exit_label(env, st, f)), ..s0.labelled() }
    };
    lemma_bind_args(s1, f.params@, f.params@.len());
    let s2 = body_entry(env, st, f);
    lemma_stmts_code(env, top_ctx(), s2, f.body@, k);
    let here = stmts_code(env, top_ctx(), s2, f.body@, k);
    assert(stacked(s1.vars, s1.off, here.vars, here.off));
    reveal(stacked);
    assert(own_slots(s1.vars, s1.off));
}

/// What `b` has besides the code of the present function goes on from `a`.
pub open spec fn extended(a: Code, b: Code) -> bool {
    &&& grown(a.funcs, b.funcs)
    &&& grown(a.strs, b.strs)
    &&& grown(a.errs, b.errs)
}

/// A function is compiled behind the others.
proof fn lemma_fn_code(env: Env, st: Code, f: FnDef)
    ensures
        extended(st, fn_code(env, st, f)),
{
    broadcast use group_grown, group_kept, group_stacked;

    lemma_fn_body(env, st, f);
}

/// The body of a function leaves what is there.
proof fn lemma_fn_body(env: Env, st: Code, f: FnDef)
    ensures
        extended(st, fn_body(env, st, f)),
{
    broadcast use group_grown, group_kept, group_stacked;

    let vars = dtor_vars(env.dtors.dom(), f.body@, f.body@.len());
    let exit = exit_label(env, st, f);
    let s0 = enter_fn(st);
    let s1 = if vars.len() == 0 {
        s0
    } else {
        Code { epi: Some(exit), ..s0.labelled() }
    };
    lemma_bind_args(s1, f.params@, f.params@.len());
    let s2 = body_entry(env, st, f);
    lemma_stmts_code(env, top_ctx(), s2, f.body@, f.body@.len());
    let s3 = stmts_code(env, top_ctx(), s2, f.body@, f.body@.len());
    let s4 = s3.with(s3.code + "    mov rax, 0\n"@ + ins1("jmp"@, exit));
    lemma_dtors_code(
        env,
        Code {
            epi: Some(lab(".Lepi_"@, st.labels)),
            ..s4.with(s4.code + label_line(exit))
        },
        vars,
        vars.len(),
    );
}

/// Functions are compiled behind the others.
proof fn lemma_fns_code(env: Env, st: Code, decls: Seq<&TopLevel>, k: nat)
    ensures
        extended(st, fns_code(env, st, decls, k)),
    decreases k,
{
    broadcast use group_grown, group_kept, group_stacked;

    reveal(fns_code);
    if k > 0 && k <= decls.len() {
        lemma_fns_code(env, st, decls, (k - 1) as nat);
        match *decls[k - 1] {
            TopLevel::FnDef(f) => {
                lemma_fn_code(env, fns_code(env, st, decls, (k - 1) as nat), f);
            },
            _ => {},
        }
    }
}

/// A compiled program adds to what the generator has: no function, string constant
/// or error of an earlier program is lost, so what has failed once goes on failing.
pub proof fn law_programs_only_add(env: Env, st: Code, decls: Seq<&TopLevel>)
    ensures
        extended(st, program_code(env, st, decls)),
        st.errs.len() > 0 ==> compile_result(env, program_code(env, st, decls), decls) is Err,
{
    broadcast use group_grown, group_kept, group_stacked;

    lemma_fns_code(env, st, decls, decls.len());
    let s = fns_code(env, st, decls, decls.len());
    lemma_top_code(env, enter_main(s), decls, decls.len());
    assert(extended(st, program_code(env, st, decls)));
    reveal(grown);
}

/// Destructors run on every exit: in a function that constructs values with
/// destructors, a `return` goes to the destructors for as long as it goes
/// anywhere, the end of the body goes there too, and behind them stands the jump to
/// the epilogue.
pub proof fn law_destructors_run_on_every_exit(env: Env, st: Code, f: FnDef, k: nat)
    requires
        dtor_vars(env.dtors.dom(), f.body@, f.body@.len()).len() > 0,
        k <= f.body@.len(),
    ensures
        ({
            let exit = lab(".Lcleanup_"@, enter_fn(st).labels);
            let s2 = body_entry(env, st, f);
                    let here = stmts_code(env, top_ctx(), s2, f.body@, k);
            let s3 = stmts_code(env, top_ctx(), s2, f.body@, f.body@.len());
            let all = fn_body(env, st, f);
            &&& here.epi == Some(exit) || here.epi is None
            &&& grown(
                s3.code + "    mov rax, 0\n"@ + ins1("jmp"@, exit) + label_line(exit),
                all.code,
            )
            &&& exists|front: Seq<char>|
                all.code == #[trigger] (front + ins1("jmp"@, lab(".Lepi_"@, st.labels)))
        }),
{
    broadcast use group_grown, group_kept, group_stacked;

    let vars = dtor_vars(env.dtors.dom(), f.body@, f.body@.len());
    let exit = exit_label(env, st, f);
    let s1 = Code { epi: Some(exit), ..enter_fn(st).labelled() };
    lemma_bind_args(s1, f.params@, f.params@.len());
    lemma_bound_exit(s1, f.params@, f.params@.len());
    let s2 = body_entry(env, st, f);
    lemma_stmts_code(env, top_ctx(), s2, f.body@, k);
    let s3 = stmts_code(env, top_ctx(), s2, f.body@, f.body@.len());
    let s4 = s3.with(s3.code + "    mov rax, 0\n"@ + ins1("jmp"@, exit));
    let s = Code {
        epi: Some(lab(".Lepi_"@, st.labels)),
        ..s4.with(s4.code + label_line(exit))
    };
    lemma_dtors_code(env, s, vars, vars.len());
    let front = dtors_code(env, s, vars, vars.len()).code;
    assert(fn_body(env, st, f).code == front + ins1("jmp"@, lab(".Lepi_"@, st.labels)));
}

/// Binding the parameters leaves the exit as it is.
proof fn lemma_bound_exit(st: Code, params: Seq<FnParam>, k: nat)
    ensures
        bind_args(st, params, k).epi == st.epi,
    decreases k,
{
    reveal(bind_args);
    if k > 0 && k <= params.len() {
        lemma_bound_exit(st, params, (k - 1) as nat);
    }
}

} // verus!
