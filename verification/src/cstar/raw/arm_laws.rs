//! What every step of the ARM backend keeps: it only appends, no variable moves,
//! and new variables get new registers and stack slots.

use vstd::prelude::*;
use crate::ast::{
    AsmOperand, AsmStmt, Assignee, BinaryExpr, BinaryOp, CallExpr, Expr, FnDef, FnParam, ForInStmt,
    ForRangeStmt, Identifier, IfStmt, LambdaExpr, RangeExpr, Stmt, TopLevel, TryStmt, WhileStmt,
};
use crate::cstar::raw::arm_model::{
    add_imm, arg_code, arg_len, arg_reg, args_code, asm_code, binary_code, bind_args, bind_params,
    block_code, body_entry, break_text, builtin_code, call_code, captures, Code, compile_result,
    cond_code, cond_of, continue_text, cset, direct_args, dtors_code, enter_fn, exit_label,
    expr_code, float_tail, fmov, fn_body, fn_code, fns_code, for_in_code, for_range_code, fp,
    general_op, if_code, imm_op, inline_code, inputs_code, lambda_code, load_fn, load_imm, load_str,
    load_var, load_var_unless, memcpy_loop, memset_loop, mov_ret, newline_code, opt_code, place_var,
    plain_cond, pool_len, pool_reg, pop_args, pop_handler, pop_reg, print_args, print_float_code,
    print_float_head, print_float_tail, print_int_code, print_int_text, program_code, push_handler,
    push_reg, pushed_args, raise, range_ctx, range_entry, range_head, range_loop_code, range_tail,
    real_call, reg_op, ret, return_jump, scratch_len, scratch_reg, scratch_regs, set_compare,
    SLOTS_TOP, spin_loop, step_code, stmt_code, stmts_code, store_outputs, store_var,
    store_var_unless, str_code, str_loop_code, str_loop_head, sub_imm, template_comments,
    tls_access, tmp, tmp2, tmp3, top_code, top_ctx, try_code, unrolled, while_code, write_str,
    zero_ret,
};
use crate::cstar::raw::common::{
    bump, down8, dtor_vars, free_names, inlineable, param_names, parts_text, VarLoc,
};
use crate::cstar::raw::lines::{ins1, ins1i, ins2, label_line, mem_line};
use crate::cstar::raw::model::{
    Ctx, Env, float_word, group_grown, group_kept, group_settled, group_stacked, grown, is_builtin,
    kept, lab, lemma_grown_add, lemma_grown_trans, lemma_kept_but, lemma_kept_restored,
    lemma_kept_trans, lemma_settled_restored, lemma_settled_trans, lemma_stacked_restored,
    lemma_stacked_trans, list_len, names_of, new_registers, new_slots, offset_of, own_registers,
    own_slots, restored, settled, stacked, template_lines, three_args,
};
use crate::text::{byte_len, lines, repeated, sorted_set};

verus! {

/// `b` comes from `a` by appending: the code, the functions, the string constants
/// and the errors of `a` are still there, in front, and a `return` goes to the
/// same place, or nowhere where a lambda has been compiled. Every variable keeps
/// its location, unless its name is in `p`, and new ones get new registers
/// and stack slots.
pub open spec fn appended_but(a: Code, b: Code, p: Set<Seq<char>>) -> bool {
    &&& grown(a.code, b.code)
    &&& grown(a.funcs, b.funcs)
    &&& grown(a.strs, b.strs)
    &&& grown(a.errs, b.errs)
    &&& b.epi == a.epi || b.epi is None
    &&& kept(a.vars, b.vars, p)
    &&& settled(a.vars, a.next, b.vars, b.next)
    &&& stacked(a.vars, a.off, b.vars, b.off)
}

/// `b` comes from `a` by appending, and every variable keeps its location.
pub open spec fn appended(a: Code, b: Code) -> bool {
    appended_but(a, b, Set::empty())
}

/// One step after another.
proof fn lemma_then(a: Code, b: Code, c: Code)
    requires
        appended(a, b),
        appended(b, c),
    ensures
        appended(a, c),
{
    lemma_grown_trans(a.code, b.code, c.code);
    lemma_grown_trans(a.funcs, b.funcs, c.funcs);
    lemma_grown_trans(a.strs, b.strs, c.strs);
    lemma_grown_trans(a.errs, b.errs, c.errs);
    lemma_kept_trans(a.vars, b.vars, c.vars, Set::empty());
    lemma_settled_trans(a.vars, a.next, b.vars, b.next, c.vars, c.next);
    lemma_stacked_trans(a.vars, a.off, b.vars, b.off, c.vars, c.off);
}

/// A longer text.
proof fn lemma_with(a: Code, code: Seq<char>)
    requires
        grown(a.code, code),
    ensures
        appended(a, a.with(code)),
{
    broadcast use group_grown, group_settled, group_kept, group_stacked;

}

/// A label number and two stack slots.
proof fn lemma_range_entry(st: Code)
    ensures
        appended(st, range_entry(st)),
{
    broadcast use group_grown, group_settled, group_kept, group_stacked;

}

/// `load_imm` appends.
proof fn lemma_load_imm(out: Seq<char>, a64: bool, reg: Seq<char>, v: i64)
    ensures
        grown(out, load_imm(out, a64, reg, v)),
{
    broadcast use group_grown, group_settled, group_kept, group_stacked;

    reveal(load_imm);
}

/// `add_imm` appends.
proof fn lemma_add_imm(out: Seq<char>, a64: bool, target: Seq<char>, src: Seq<char>, v: i64)
    ensures
        grown(out, add_imm(out, a64, target, src, v)),
{
    broadcast use group_grown, group_settled, group_kept, group_stacked;

    reveal(add_imm);
    if 0 <= v <= 4095 {
    } else if !(-4095 <= v < 0) {
        lemma_load_imm(out, a64, tmp(a64), v);
    }
}

/// `sub_imm` appends.
proof fn lemma_sub_imm(out: Seq<char>, a64: bool, target: Seq<char>, src: Seq<char>, v: i64)
    ensures
        grown(out, sub_imm(out, a64, target, src, v)),
{
    broadcast use group_grown, group_settled, group_kept, group_stacked;

    reveal(sub_imm);
    if 0 <= v <= 4095 {
    } else if !(-4095 <= v < 0) {
        lemma_load_imm(out, a64, tmp(a64), v);
    }
}

/// `cset` appends.
proof fn lemma_cset(out: Seq<char>, a64: bool, target: Seq<char>, cond: Seq<char>)
    ensures
        grown(out, cset(out, a64, target, cond)),
{
    broadcast use group_grown, group_settled, group_kept, group_stacked;

    reveal(cset);
}

/// `set_compare` appends.
proof fn lemma_set_compare(
    out: Seq<char>,
    a64: bool,
    target: Seq<char>,
    src: Seq<char>,
    v: i64,
    cond: Seq<char>,
)
    ensures
        grown(out, set_compare(out, a64, target, src, v, cond)),
{
    broadcast use group_grown, group_settled, group_kept, group_stacked;

    reveal(set_compare);
    lemma_load_imm(out, a64, tmp(a64), v);
    lemma_cset(
        if -2048 <= v <= 2047 {
            out + ins1i("cmp"@, src, v as int)
        } else {
            load_imm(out, a64, tmp(a64), v) + ins2("cmp"@, src, tmp(a64))
        },
        a64,
        target,
        cond,
    );
}

/// `load_str` appends.
proof fn lemma_load_str(out: Seq<char>, a64: bool, target: Seq<char>, n: nat)
    ensures
        grown(out, load_str(out, a64, target, n)),
{
    broadcast use group_grown, group_settled, group_kept, group_stacked;

    reveal(load_str);
}

/// `str_code` appends.
proof fn lemma_str_code(a64: bool, st: Code, target: Seq<char>, s: Seq<char>)
    ensures
        appended(st, str_code(a64, st, target, s)),
{
    broadcast use group_grown, group_settled, group_kept, group_stacked;

    lemma_load_str(st.code, a64, target, st.strs.len());
}

/// `store_var` appends.
proof fn lemma_store_var(out: Seq<char>, a64: bool, loc: VarLoc, src: Seq<char>)
    ensures
        grown(out, store_var(out, a64, loc, src)),
{
    broadcast use group_grown, group_settled, group_kept, group_stacked;

    reveal(store_var);
}

/// `store_var_unless` appends.
proof fn lemma_store_var_unless(out: Seq<char>, a64: bool, loc: VarLoc, src: Seq<char>)
    ensures
        grown(out, store_var_unless(out, a64, loc, src)),
{
    broadcast use group_grown, group_settled, group_kept, group_stacked;

    reveal(store_var_unless);
    if !(loc matches VarLoc::Reg(i) && pool_reg(a64, i as int) == src) {
        lemma_store_var(out, a64, loc, src);
    }
}

/// `load_var` appends.
proof fn lemma_load_var(out: Seq<char>, a64: bool, loc: VarLoc, target: Seq<char>)
    ensures
        grown(out, load_var(out, a64, loc, target)),
{
    broadcast use group_grown, group_settled, group_kept, group_stacked;

    reveal(load_var);
}

/// `load_var_unless` appends.
proof fn lemma_load_var_unless(out: Seq<char>, a64: bool, loc: VarLoc, target: Seq<char>)
    ensures
        grown(out, load_var_unless(out, a64, loc, target)),
{
    broadcast use group_grown, group_settled, group_kept, group_stacked;

    reveal(load_var_unless);
    if !(loc matches VarLoc::Reg(i) && pool_reg(a64, i as int) == target) {
        lemma_load_var(out, a64, loc, target);
    }
}

/// `mov_ret` appends.
proof fn lemma_mov_ret(out: Seq<char>, a64: bool, target: Seq<char>)
    ensures
        grown(out, mov_ret(out, a64, target)),
{
    broadcast use group_grown, group_settled, group_kept, group_stacked;

    reveal(mov_ret);
}

/// `place_var` appends.
proof fn lemma_place_var(a64: bool, st: Code, n: Seq<char>)
    ensures
        appended(st, place_var(a64, st, n).1),
{
    broadcast use group_grown, group_settled, group_kept, group_stacked;

    reveal(place_var);
}

/// `return_jump` appends.
proof fn lemma_return_jump(a64: bool, st: Code)
    ensures
        appended(st, return_jump(a64, st)),
{
    broadcast use group_grown, group_settled, group_kept, group_stacked;

    reveal(return_jump);
}

/// `imm_op` appends.
proof fn lemma_imm_op(out: Seq<char>, a64: bool, op: BinaryOp, target: Seq<char>, v: i64)
    ensures
        grown(out, imm_op(out, a64, op, target, v)),
{
    broadcast use group_grown, group_settled, group_kept, group_stacked;

    reveal(imm_op);
    let r = ret(a64);
    match op {
        BinaryOp::Add => {
            lemma_add_imm(out, a64, target, r, v);
        },
        BinaryOp::Sub => {
            lemma_sub_imm(out, a64, target, r, v);
        },
        BinaryOp::Mod => {
            lemma_load_imm(out, a64, tmp(a64), v);
        },
        _ => {
            match cond_of(op) {
                Some(c) => {
                    lemma_set_compare(out, a64, target, r, v, c);
                },
                None => {
                    match reg_op(op) {
                        Some(m) => {
                            lemma_load_imm(out, a64, tmp(a64), v);
                        },
                        None => {
                            lemma_load_imm(out, a64, target, 0);
                        },
                    }
                },
            }
        },
    }
}

/// `general_op` appends.
proof fn lemma_general_op(out: Seq<char>, a64: bool, op: BinaryOp, target: Seq<char>)
    ensures
        grown(out, general_op(out, a64, op, target)),
{
    broadcast use group_grown, group_settled, group_kept, group_stacked;

    reveal(general_op);
    let l = tmp2(a64);
    let r = tmp(a64);
    match cond_of(op) {
        Some(c) => {
            lemma_cset(out + ins2("cmp"@, l, r), a64, target, c);
        },
        _ => {},
    }
}

/// `float_tail` appends.
proof fn lemma_float_tail(out: Seq<char>, a64: bool, op: BinaryOp, target: Seq<char>)
    ensures
        grown(out, float_tail(out, a64, op, target)),
{
    broadcast use group_grown, group_settled, group_kept, group_stacked;

    reveal(float_tail);
}

/// `print_int_text` appends.
proof fn lemma_print_int_text(out: Seq<char>, a64: bool, id: nat)
    ensures
        grown(out, print_int_text(out, a64, id)),
{
    broadcast use group_grown, group_settled, group_kept, group_stacked;

    reveal(print_int_text);
}

/// `print_float_head` appends.
proof fn lemma_print_float_head(out: Seq<char>, a64: bool, id: nat)
    ensures
        grown(out, print_float_head(out, a64, id)),
{
    broadcast use group_grown, group_settled, group_kept, group_stacked;

    reveal(print_float_head);
}

/// `print_float_tail` appends.
proof fn lemma_print_float_tail(out: Seq<char>, a64: bool, id: nat, dot: nat)
    ensures
        grown(out, print_float_tail(out, a64, id, dot)),
{
    broadcast use group_grown, group_settled, group_kept, group_stacked;

    reveal(print_float_tail);
}

/// `print_float_code` appends.
proof fn lemma_print_float_code(a64: bool, st: Code)
    ensures
        appended(st, print_float_code(a64, st)),
{
    broadcast use group_grown, group_settled, group_kept, group_stacked;

    reveal(print_float_code);
    let id = st.labels;
    lemma_print_float_head(st.code, a64, id as nat);
    let s1 = st.labelled().with(print_float_head(st.code, a64, id as nat));
    lemma_print_int_code(a64, s1);
    let s2 = print_int_code(a64, s1);
    lemma_print_float_tail(s2.code, a64, id as nat, s2.strs.len());
}

/// `print_int_code` appends.
proof fn lemma_print_int_code(a64: bool, st: Code)
    ensures
        appended(st, print_int_code(a64, st)),
{
    broadcast use group_grown, group_settled, group_kept, group_stacked;

    reveal(print_int_code);
    lemma_print_int_text(st.code, a64, st.labels as nat);
}

/// `write_str` appends.
proof fn lemma_write_str(out: Seq<char>, a64: bool, n: nat, len: nat)
    ensures
        grown(out, write_str(out, a64, n, len)),
{
    broadcast use group_grown, group_settled, group_kept, group_stacked;

    reveal(write_str);
}

/// `newline_code` appends.
proof fn lemma_newline_code(a64: bool, st: Code)
    ensures
        appended(st, newline_code(a64, st)),
{
    broadcast use group_grown, group_settled, group_kept, group_stacked;

    reveal(newline_code);
}

/// `push_handler` appends.
proof fn lemma_push_handler(out: Seq<char>, a64: bool, label: Seq<char>)
    ensures
        grown(out, push_handler(out, a64, label)),
{
    broadcast use group_grown, group_settled, group_kept, group_stacked;

    reveal(push_handler);
}

/// `raise` appends.
proof fn lemma_raise(out: Seq<char>, a64: bool)
    ensures
        grown(out, raise(out, a64)),
{
    broadcast use group_grown, group_settled, group_kept, group_stacked;

    reveal(raise);
}

/// `memcpy_loop` appends.
proof fn lemma_memcpy_loop(out: Seq<char>, a64: bool, l: Seq<char>, end: Seq<char>)
    ensures
        grown(out, memcpy_loop(out, a64, l, end)),
{
    broadcast use group_grown, group_settled, group_kept, group_stacked;

    reveal(memcpy_loop);
}

/// `memset_loop` appends.
proof fn lemma_memset_loop(out: Seq<char>, a64: bool, l: Seq<char>, end: Seq<char>)
    ensures
        grown(out, memset_loop(out, a64, l, end)),
{
    broadcast use group_grown, group_settled, group_kept, group_stacked;

    reveal(memset_loop);
}

/// `spin_loop` appends.
proof fn lemma_spin_loop(out: Seq<char>, a64: bool, l: Seq<char>)
    ensures
        grown(out, spin_loop(out, a64, l)),
{
    broadcast use group_grown, group_settled, group_kept, group_stacked;

    reveal(spin_loop);
}

/// `tls_access` appends.
proof fn lemma_tls_access(out: Seq<char>, a64: bool, op: Seq<char>)
    ensures
        grown(out, tls_access(out, a64, op)),
{
    broadcast use group_grown, group_settled, group_kept, group_stacked;

    reveal(tls_access);
}

/// `str_loop_head` appends.
proof fn lemma_str_loop_head(
    out: Seq<char>,
    a64: bool,
    n: nat,
    len: nat,
    cond: Seq<char>,
    end: Seq<char>,
)
    ensures
        grown(out, str_loop_head(out, a64, n, len, cond, end)),
{
    broadcast use group_grown, group_settled, group_kept, group_stacked;

    reveal(str_loop_head);
    let o = out + ins1i("mov"@, tmp(a64), 0) + ins1i("mov"@, tmp2(a64), len as int);
    lemma_load_str(o, a64, tmp3(a64), n);
}

/// `range_head` appends.
proof fn lemma_range_head(out: Seq<char>, a64: bool, id: usize, loc: VarLoc, bound: i32, step: i32)
    ensures
        grown(out, range_head(out, a64, id, loc, bound, step)),
{
    broadcast use group_grown, group_settled, group_kept, group_stacked;

    reveal(range_head);
    let r = ret(a64);
    let t = tmp(a64);
    let end = lab(".Lfrend_"@, id);
    let o1 = out + label_line(lab(".Lfrcond_"@, id)) + mem_line("ldr"@, r, fp(a64), step as int) + ins1i("cmp"@, r, 0) + ins1("bge"@, lab(".Lfrpos_"@, id));
    lemma_load_var(o1, a64, loc, r);
    let o2 = load_var(o1, a64, loc, r) + mem_line("ldr"@, t, fp(a64), bound as int) + ins2("cmp"@, r, t) + ins1("ble"@, end) + ins1("b"@, lab(".Lfrskip_"@, id)) + label_line(lab(".Lfrpos_"@, id));
    lemma_load_var(o2, a64, loc, r);
}

/// `range_tail` appends.
proof fn lemma_range_tail(out: Seq<char>, a64: bool, id: usize, loc: VarLoc, step: i32)
    ensures
        grown(out, range_tail(out, a64, id, loc, step)),
{
    broadcast use group_grown, group_settled, group_kept, group_stacked;

    reveal(range_tail);
}

/// `template_comments` appends.
proof fn lemma_template_comments(out: Seq<char>, a: AsmStmt)
    ensures
        grown(out, template_comments(out, a)),
{
    broadcast use group_grown, group_settled, group_kept, group_stacked;

    reveal(template_comments);
}

/// `store_outputs` appends.
proof fn lemma_store_outputs(
    out: Seq<char>,
    a64: bool,
    vars: Map<Seq<char>, VarLoc>,
    ops: Seq<AsmOperand>,
    k: nat,
)
    ensures
        grown(out, store_outputs(out, a64, vars, ops, k)),
    decreases k,
{
    broadcast use group_grown, group_settled, group_kept, group_stacked;

    reveal(store_outputs);
    if !(k == 0 || k > ops.len()) {
        lemma_store_outputs(out, a64, vars, ops, (k - 1) as nat);
        let prev = store_outputs(out, a64, vars, ops, (k - 1) as nat);
        match ops[k - 1].expr {
            Expr::Identifier(id) => {
                if vars.contains_key(id.name@) {
                    lemma_store_var_unless(prev, a64, vars[id.name@], scratch_reg(a64, k - 1));
                }
            },
            _ => {},
        }
    }
}

/// `bind_args` appends.
proof fn lemma_bind_args(a64: bool, st: Code, params: Seq<FnParam>, k: nat)
    requires
        st.next == 0,
        params.len() <= usize::MAX,
    ensures
        appended_but(st, bind_args(a64, st, params, k), names_of(params)),
        k <= params.len() ==> bind_args(a64, st, params, k).next == k,
    decreases k,
{
    broadcast use group_grown, group_settled, group_kept, group_stacked;

    reveal(bind_args);
    if !(k == 0 || k > params.len()) {
        lemma_bind_args(a64, st, params, (k - 1) as nat);
        let prev = bind_args(a64, st, params, (k - 1) as nat);
        let vars = prev.vars.insert(
            params[k - 1].name.name@,
            VarLoc::Reg((k - 1) as usize),
        );
        assert(kept(prev.vars, vars, names_of(params)));
        assert(settled(prev.vars, prev.next, vars, k as usize));
        assert(stacked(prev.vars, prev.off, vars, prev.off));
    }
}

/// `captures` appends.
proof fn lemma_captures(a64: bool, st: Code, name: Seq<char>, free: Seq<Seq<char>>, k: nat)
    ensures
        appended(st, captures(a64, st, name, free, k)),
    decreases k,
{
    broadcast use group_grown, group_settled, group_kept, group_stacked;

    reveal(captures);
    if !(k == 0 || k > free.len()) {
        lemma_captures(a64, st, name, free, (k - 1) as nat);
        let prev = captures(a64, st, name, free, (k - 1) as nat);
        let v = free[k - 1];
        if prev.vars.contains_key(v) {
            lemma_load_var(prev.code, a64, prev.vars[v], ret(a64));
        }
        let o1 = if prev.vars.contains_key(v) {
            load_var(prev.code, a64, prev.vars[v], ret(a64))
        } else {
            prev.code
        };
        lemma_load_str(o1, a64, tmp(a64), prev.strs.len());
    }
}

/// `load_fn` appends.
proof fn lemma_load_fn(out: Seq<char>, a64: bool, target: Seq<char>, name: Seq<char>)
    ensures
        grown(out, load_fn(out, a64, target, name)),
{
    broadcast use group_grown, group_settled, group_kept, group_stacked;

    reveal(load_fn);
}

/// `expr_code` appends.
proof fn lemma_expr_code(env: Env, ctx: Ctx, st: Code, e: Expr, target: Seq<char>)
    ensures
        appended(st, expr_code(env, ctx, st, e, target)),
    decreases ctx.depth, 0nat, e, 0nat,
{
    broadcast use group_grown, group_settled, group_kept, group_stacked;

    let a = env.a64();
    match e {
        Expr::Integer(i) => {
            lemma_load_imm(st.code, a, target, i.value);
        },
        Expr::Float(f) => {
            lemma_load_imm(st.code, a, target, float_word(f.bits));
        },
        Expr::String_(s) => {
            lemma_str_code(a, st, target, parts_text(s.parts@));
        },
        Expr::Binary(b) => {
            lemma_binary_code(env, ctx, st, b, target);
        },
        Expr::Bool(b) => {
            lemma_load_imm(st.code, a, target, if b.value { 1 } else { 0 });
        },
        Expr::Null => {
            lemma_load_imm(st.code, a, target, 0);
        },
        Expr::Identifier(id) => {
            if st.vars.contains_key(id.name@) {
                lemma_load_var_unless(st.code, a, st.vars[id.name@], target);
            } else {
                lemma_load_imm(st.code, a, target, 0);
            }
        },
        Expr::Unary(u) => {
            lemma_expr_code(env, ctx, st, *u.operand, target);
        },
        Expr::AssignExpr(x) => {
            lemma_expr_code(env, ctx, st, *x.value, target);
            let s1 = expr_code(env, ctx, st, *x.value, target);
            if x.targets@.len() > 0 {
                match x.targets@[0] {
                    Assignee::Identifier(id) => {
                        if s1.vars.contains_key(id.name@) {
                            lemma_store_var_unless(s1.code, a, s1.vars[id.name@], target);
                        }
                    },
                    _ => {},
                }
            }
        },
        Expr::Call(c) => {
            lemma_call_code(env, ctx, st, c, target);
        },
        Expr::Cast(c) => {
            lemma_expr_code(env, ctx, st, *c.expr, target);
        },
        Expr::Lambda(l) => {
            lemma_lambda_code(env, ctx, st, l, target);
        },
        Expr::TryPropagate(t) => {
            let s0 = st.with(st.code + "    @ TryPropagate: evaluate expr\n"@);
            lemma_expr_code(env, ctx, s0, *t.expr, target);
        },
        _ => {
            lemma_load_imm(st.code, a, target, 0);
        },
    }
}

/// `binary_code` appends.
proof fn lemma_binary_code(env: Env, ctx: Ctx, st: Code, b: BinaryExpr, target: Seq<char>)
    ensures
        appended(st, binary_code(env, ctx, st, b, target)),
    decreases ctx.depth, 0nat, b, 0nat,
{
    broadcast use group_grown, group_settled, group_kept, group_stacked;

    let a = env.a64();
    match (b.operator, *b.left, *b.right) {
        (BinaryOp::Add, Expr::String_(l), Expr::String_(r)) => {
            lemma_str_code(a, st, target, parts_text(l.parts@) + parts_text(r.parts@));
        },
        (BinaryOp::Mul, Expr::String_(s), Expr::Integer(n)) => {
            lemma_str_code(
                a,
                st,
                target,
                repeated(parts_text(s.parts@), (n.value as usize) as nat),
            );
        },
        (BinaryOp::Mul, Expr::Integer(n), Expr::String_(s)) => {
            lemma_str_code(
                a,
                st,
                target,
                repeated(parts_text(s.parts@), (n.value as usize) as nat),
            );
        },
        (BinaryOp::Eq, Expr::String_(l), Expr::String_(r)) => {
            lemma_load_imm(
                st.code,
                a,
                target,
                if parts_text(l.parts@) == parts_text(r.parts@) { 1 } else { 0 },
            );
        },
        (BinaryOp::Ne, Expr::String_(l), Expr::String_(r)) => {
            lemma_load_imm(
                st.code,
                a,
                target,
                if parts_text(l.parts@) == parts_text(r.parts@) { 0 } else { 1 },
            );
        },
        (op, l, r) => {
            if l is Float || r is Float {
                lemma_expr_code(env, ctx, st, *b.left, ret(a));
                let s1 = expr_code(env, ctx, st, *b.left, ret(a));
                let s2 = s1.with(s1.code + ins2(fmov(a), "d8"@, ret(a)));
                lemma_expr_code(env, ctx, s2, *b.right, tmp(a));
                let s3 = expr_code(env, ctx, s2, *b.right, tmp(a));
                lemma_float_tail(s3.code + ins2(fmov(a), "d9"@, tmp(a)), a, op, target);
            } else if r is Integer {
                lemma_expr_code(env, ctx, st, *b.left, ret(a));
                let s1 = expr_code(env, ctx, st, *b.left, ret(a));
                lemma_imm_op(s1.code, a, op, target, r->Integer_0.value);
            } else {
                lemma_expr_code(env, ctx, st, *b.left, ret(a));
                let s1 = expr_code(env, ctx, st, *b.left, ret(a));
                let s2 = s1.with(s1.code + push_reg(a, ret(a)));
                lemma_expr_code(env, ctx, s2, *b.right, tmp(a));
                let s3 = expr_code(env, ctx, s2, *b.right, tmp(a));
                lemma_general_op(s3.code + pop_reg(a, tmp2(a)), a, op, target);
            }
        },
    }
}

/// `args_code` appends.
proof fn lemma_args_code(env: Env, ctx: Ctx, st: Code, args: Seq<Expr>, k: nat)
    ensures
        appended(st, args_code(env, ctx, st, args, k)),
    decreases ctx.depth, 0nat, args, args.len() + 1,
{
    broadcast use group_grown, group_settled, group_kept, group_stacked;

    if k <= args.len() {
        lemma_direct_args(env, ctx, st, args, k);
        lemma_pushed_args(env, ctx, st, args, k);
        lemma_pop_args(pushed_args(env, ctx, st, args, k).code, env.a64(), k);
    }
}

/// `pushed_args` appends.
proof fn lemma_pushed_args(env: Env, ctx: Ctx, st: Code, args: Seq<Expr>, k: nat)
    ensures
        appended(st, pushed_args(env, ctx, st, args, k)),
    decreases ctx.depth, 0nat, args, k,
{
    broadcast use group_grown, group_settled, group_kept, group_stacked;

    if !(k == 0 || k > args.len()) {
        lemma_pushed_args(env, ctx, st, args, (k - 1) as nat);
        lemma_expr_code(
            env,
            ctx,
            pushed_args(env, ctx, st, args, (k - 1) as nat),
            args[k - 1],
            ret(env.a64()),
        );
    }
}

/// `pop_args` appends.
proof fn lemma_pop_args(out: Seq<char>, a64: bool, k: nat)
    ensures
        grown(out, pop_args(out, a64, k)),
    decreases k,
{
    broadcast use group_grown;

    reveal(pop_args);
    if k > 0 {
        lemma_pop_args(out + pop_reg(a64, arg_reg(a64, k - 1)), a64, (k - 1) as nat);
    }
}

/// `direct_args` appends.
proof fn lemma_direct_args(env: Env, ctx: Ctx, st: Code, args: Seq<Expr>, k: nat)
    ensures
        appended(st, direct_args(env, ctx, st, args, k)),
    decreases ctx.depth, 0nat, args, k,
{
    broadcast use group_grown, group_settled, group_kept, group_stacked;

    if !(k == 0 || k > args.len()) {
        lemma_direct_args(env, ctx, st, args, (k - 1) as nat);
        lemma_expr_code(
            env,
            ctx,
            direct_args(env, ctx, st, args, (k - 1) as nat),
            args[k - 1],
            arg_reg(env.a64(), k - 1),
        );
    }
}

/// `real_call` appends.
proof fn lemma_real_call(
    env: Env,
    ctx: Ctx,
    st: Code,
    name: Seq<char>,
    args: Seq<Expr>,
    target: Seq<char>,
)
    ensures
        appended(st, real_call(env, ctx, st, name, args, target)),
    decreases ctx.depth, 0nat, args, args.len() + 2,
{
    broadcast use group_grown, group_settled, group_kept, group_stacked;

    let a = env.a64();
    let n = if args.len() < arg_len(a) { args.len() } else { arg_len(a) as nat };
    lemma_args_code(env, ctx, st, args, n);
    let s1 = args_code(env, ctx, st, args, n);
    lemma_mov_ret(s1.code + ins1("bl"@, name), a, target);
}

/// `call_code` appends.
proof fn lemma_call_code(env: Env, ctx: Ctx, st: Code, c: CallExpr, target: Seq<char>)
    ensures
        appended(st, call_code(env, ctx, st, c, target)),
    decreases ctx.depth, 0nat, c, 2nat,
{
    broadcast use group_grown, group_settled, group_kept, group_stacked;

    let a = env.a64();
    match *c.callee {
        Expr::Identifier(id) => {
            let n = id.name@;
            if is_builtin(n) {
                lemma_builtin_code(env, ctx, st, n, c, target);
            } else if ctx.depth > 0 && env.fns.contains_key(n) && inlineable(*env.fns[n]) && env.fns[n].params@.len() == c.args@.len() {
                lemma_inline_code(
                    env,
                    Ctx { depth: (ctx.depth - 1) as nat, ..ctx },
                    st,
                    *env.fns[n],
                    c,
                    target,
                );
            } else {
                lemma_real_call(env, ctx, st, n, c.args@, target);
            }
        },
        Expr::MemberAccess(m) => {
            let n = m.member.name@;
            if n == "load"@ {
                lemma_expr_code(
                    env,
                    ctx,
                    st.with(st.code + "    @ volatile load\n"@),
                    *m.target,
                    target,
                );
            } else if n == "load_acquire"@ {
                lemma_expr_code(
                    env,
                    ctx,
                    st.with(st.code + "    @ volatile load (acquire)\n"@),
                    *m.target,
                    target,
                );
            } else if n == "store"@ {
                let s1 = st.with(st.code + "    @ volatile store\n"@);
                if c.args@.len() > 0 {
                    lemma_expr_code(env, ctx, s1, c.args@[0], target);
                } else {
                    lemma_expr_code(env, ctx, s1, *m.target, target);
                }
            } else if n == "store_release"@ {
                let s1 = st.with(
                    st.code + "    @ volatile store (release)\n"@ + "    @ store_release — release fence\n"@ + "    dmb ish\n"@,
                );
                if c.args@.len() > 0 {
                    lemma_expr_code(env, ctx, s1, c.args@[0], target);
                } else {
                    lemma_expr_code(env, ctx, s1, *m.target, target);
                }
            } else {
                lemma_expr_code(env, ctx, st, *m.target, target);
            }
        },
        _ => {
            lemma_load_imm(st.code, a, target, 0);
        },
    }
}

/// `arg_code` appends.
proof fn lemma_arg_code(env: Env, ctx: Ctx, st: Code, args: Seq<Expr>, i: int, target: Seq<char>)
    ensures
        appended(st, arg_code(env, ctx, st, args, i, target)),
    decreases ctx.depth, 0nat, args, 0nat,
{
    broadcast use group_grown, group_settled, group_kept, group_stacked;

    if 0 <= i < args.len() {
        lemma_expr_code(env, ctx, st, args[i], target);
    }
}

/// `builtin_code` appends.
proof fn lemma_builtin_code(
    env: Env,
    ctx: Ctx,
    st: Code,
    n: Seq<char>,
    c: CallExpr,
    target: Seq<char>,
)
    ensures
        appended(st, builtin_code(env, ctx, st, n, c, target)),
    decreases ctx.depth, 0nat, c, 1nat,
{
    broadcast use group_grown, group_settled, group_kept, group_stacked;

    let a = env.a64();
    if n == "memcpy"@ {
        lemma_args_code(env, ctx, st, c.args@, three_args(c.args@));
        let s1 = args_code(env, ctx, st, c.args@, three_args(c.args@));
        lemma_memcpy_loop(
            s1.code,
            a,
            lab(".Lmemcpy_"@, s1.labels),
            lab(".Lmemcpy_end_"@, s1.labels),
        );
        lemma_mov_ret(
            memcpy_loop(s1.code, a, lab(".Lmemcpy_"@, s1.labels), lab(".Lmemcpy_end_"@, s1.labels)),
            a,
            target,
        );
    } else if n == "memset"@ {
        lemma_args_code(env, ctx, st, c.args@, three_args(c.args@));
        let s1 = args_code(env, ctx, st, c.args@, three_args(c.args@));
        lemma_memset_loop(
            s1.code,
            a,
            lab(".Lmemset_"@, s1.labels),
            lab(".Lmemset_end_"@, s1.labels),
        );
        lemma_mov_ret(
            memset_loop(s1.code, a, lab(".Lmemset_"@, s1.labels), lab(".Lmemset_end_"@, s1.labels)),
            a,
            target,
        );
    } else if n == "spin_lock"@ {
        lemma_arg_code(env, ctx, st, c.args@, 0, ret(a));
        let s1 = arg_code(env, ctx, st, c.args@, 0, ret(a));
        lemma_spin_loop(s1.code, a, lab(".Lspinlock_"@, s1.labels));
    } else if n == "spin_unlock"@ {
        lemma_arg_code(env, ctx, st, c.args@, 0, ret(a));
    } else if n == "tls_get"@ {
        lemma_arg_code(env, ctx, st, c.args@, 0, tmp(a));
        let s1 = arg_code(env, ctx, st, c.args@, 0, tmp(a));
        lemma_tls_access(s1.code, a, "ldr"@);
        lemma_mov_ret(tls_access(s1.code, a, "ldr"@), a, target);
    } else if n == "tls_set"@ {
        lemma_arg_code(env, ctx, st, c.args@, 0, tmp(a));
        let s1 = arg_code(env, ctx, st, c.args@, 0, tmp(a));
        lemma_arg_code(env, ctx, s1, c.args@, 1, ret(a));
        let s2 = arg_code(env, ctx, s1, c.args@, 1, ret(a));
        lemma_tls_access(s2.code, a, "str"@);
        lemma_mov_ret(tls_access(s2.code, a, "str"@), a, target);
    } else if n == "offsetof"@ {
        if c.args@.len() >= 2 && c.args@[0] is String_ && c.args@[1] is String_ {
            lemma_load_imm(
                st.code,
                a,
                target,
                offset_of(
                    env,
                    parts_text(c.args@[0]->String__0.parts@),
                    parts_text(c.args@[1]->String__0.parts@),
                ),
            );
        } else {
            lemma_load_imm(st.code, a, target, 0);
        }
    } else if !(n == "static_assert"@) {
        lemma_mov_ret(
            st.code + (if a { "    mrs x0, PMCCNTR_EL0\n"@ } else { "    mrc p15, 0, r0, c9, c13, 0\n"@ }),
            a,
            target,
        );
    }
}

/// `bind_params` appends.
proof fn lemma_bind_params(env: Env, ctx: Ctx, st: Code, f: FnDef, c: CallExpr, k: nat)
    ensures
        appended_but(st, bind_params(env, ctx, st, f, c, k).0, names_of(f.params@)),
    decreases ctx.depth, 3nat, c, k,
{
    broadcast use group_grown, group_settled, group_kept, group_stacked;

    let a = env.a64();
    if !(k == 0 || k > f.params@.len() || k > c.args@.len()) {
        lemma_bind_params(env, ctx, st, f, c, (k - 1) as nat);
        let prev = bind_params(env, ctx, st, f, c, (k - 1) as nat);
        if !(!prev.1) {
            lemma_expr_code(env, ctx, prev.0, c.args@[k - 1], ret(a));
            let s1 = expr_code(env, ctx, prev.0, c.args@[k - 1], ret(a));
            let p = names_of(f.params@);
            lemma_kept_but(prev.0.vars, s1.vars, p);
            if s1.next < pool_len(a) {
                let vars = s1.vars.insert(f.params@[k - 1].name.name@, VarLoc::Reg(s1.next));
                assert(kept(s1.vars, vars, p));
                assert(settled(s1.vars, s1.next, vars, (s1.next + 1) as usize));
                assert(stacked(s1.vars, s1.off, vars, s1.off));
            }
        }
    }
}

/// `inline_code` appends.
proof fn lemma_inline_code(env: Env, ctx: Ctx, st: Code, f: FnDef, c: CallExpr, target: Seq<char>)
    ensures
        appended(st, inline_code(env, ctx, st, f, c, target)),
    decreases ctx.depth, 4nat, c, 0nat,
{
    broadcast use group_grown, group_settled, group_kept, group_stacked;

    let a = env.a64();
    let params = f.params@;
    let end = lab(".Linl_"@, st.labels);
    lemma_bind_params(env, ctx, Code { epi: Some(end), ..st.labelled() }, f, c, params.len());
    let bound = bind_params(env, ctx, Code { epi: Some(end), ..st.labelled() }, f, c, params.len());
    let s1 = bound.0;
    lemma_kept_restored(st.vars, s1.vars, params);
    lemma_settled_restored(st.vars, st.next, s1.vars, s1.next, params);
    lemma_stacked_restored(st.vars, st.off, s1.vars, s1.off, params);
    if !bound.1 {
        let s2 = Code {
            next: st.next,
            vars: restored(s1.vars, st.vars, params, params.len()),
            ..s1
        };
        lemma_real_call(env, ctx, s2, f.name.name@, c.args@, target);
    } else {
        lemma_stmts_code(env, ctx, s1, f.body@, f.body@.len());
        let s2 = stmts_code(env, ctx, s1, f.body@, f.body@.len());
        lemma_kept_but(s1.vars, s2.vars, names_of(params));
        lemma_kept_restored(st.vars, s2.vars, params);
        lemma_settled_restored(st.vars, st.next, s2.vars, s2.next, params);
        lemma_stacked_restored(st.vars, st.off, s2.vars, s2.off, params);
        lemma_mov_ret(s2.code + label_line(end), a, target);
    }
}

/// `lambda_code` appends.
proof fn lemma_lambda_code(env: Env, ctx: Ctx, st: Code, l: LambdaExpr, target: Seq<char>)
    ensures
        appended(st, lambda_code(env, ctx, st, l, target)),
    decreases ctx.depth, 0nat, l, 0nat,
{
    broadcast use group_grown, group_settled, group_kept, group_stacked;

    let a = env.a64();
    let name = lab("__lambda_"@, st.lambdas);
    let free = sorted_set(free_names(*l.body, param_names(l.params@)));
    lemma_captures(a, Code { lambdas: bump(st.lambdas), ..st }, name, free, free.len());
    let s1 = captures(a, Code { lambdas: bump(st.lambdas), ..st }, name, free, free.len());
    assert(l.params.len() == l.params@.len());
    lemma_bind_args(a, enter_fn(s1), l.params@, l.params@.len());
    let s2 = bind_args(a, enter_fn(s1), l.params@, l.params@.len());
    lemma_expr_code(env, ctx, s2, *l.body, ret(a));
    lemma_return_jump(a, expr_code(env, ctx, s2, *l.body, ret(a)));
    lemma_load_fn(s1.code, a, target, name);
}

/// `stmts_code` appends.
proof fn lemma_stmts_code(env: Env, ctx: Ctx, st: Code, ss: Seq<Stmt>, k: nat)
    ensures
        appended(st, stmts_code(env, ctx, st, ss, k)),
    decreases ctx.depth, 3nat, ss, k,
{
    broadcast use group_grown, group_settled, group_kept, group_stacked;

    if !(k == 0 || k > ss.len()) {
        lemma_stmts_code(env, ctx, st, ss, (k - 1) as nat);
        lemma_stmt_code(env, ctx, stmts_code(env, ctx, st, ss, (k - 1) as nat), ss[k - 1]);
    }
}

/// `stmt_code` appends.
proof fn lemma_stmt_code(env: Env, ctx: Ctx, st: Code, s: Stmt)
    ensures
        appended(st, stmt_code(env, ctx, st, s)),
    decreases ctx.depth, 3nat, s, 0nat,
{
    broadcast use group_grown, group_settled, group_kept, group_stacked;

    let a = env.a64();
    match s {
        Stmt::Assign(x) => {
            if x.targets@.len() > 0 {
                match x.targets@[0] {
                    Assignee::Identifier(id) => {
                        lemma_place_var(a, st, id.name@);
                        let (loc, s1) = place_var(a, st, id.name@);
                        lemma_expr_code(env, ctx, s1, x.value, ret(a));
                        let s2 = expr_code(env, ctx, s1, x.value, ret(a));
                        lemma_store_var_unless(s2.code, a, loc, ret(a));
                    },
                    _ => {},
                }
            }
        },
        Stmt::Return(r) => {
            lemma_expr_code(env, ctx, st, r.values@[0], ret(a));
            lemma_return_jump(
                a,
                if r.values@.len() > 0 {
                    expr_code(env, ctx, st, r.values@[0], ret(a))
                } else {
                    st.with(st.code + zero_ret(a))
                },
            );
        },
        Stmt::If(i) => {
            lemma_if_code(env, ctx, st, i);
        },
        Stmt::While(w) => {
            lemma_while_code(env, ctx, st, w);
        },
        Stmt::Loop(l) => {
            let start = lab(".Lloop_"@, st.labels);
            let end = lab(".Lloopend_"@, st.labels);
            let s1 = st.labelled().with(st.code + label_line(start));
            lemma_stmts_code(
                env,
                Ctx { loops: ctx.loops.push((start, end)), ..ctx },
                s1,
                l.body@,
                l.body@.len(),
            );
        },
        Stmt::Break(b) => {
            lemma_break_text(st.code, ctx.loops, b.label);
        },
        Stmt::Continue(c) => {
            lemma_continue_text(st.code, ctx.loops, c.label);
        },
        Stmt::ForRange(fr) => {
            lemma_for_range_code(env, ctx, st, fr);
        },
        Stmt::ForIn(fi) => {
            lemma_for_in_code(env, ctx, st, fi);
        },
        Stmt::Expr(e) => {
            lemma_expr_code(env, ctx, st, e.expr, ret(a));
        },
        Stmt::Println(p) => {
            lemma_print_args(env, ctx, st, p.args@, p.args@.len());
            lemma_newline_code(a, print_args(env, ctx, st, p.args@, p.args@.len()));
        },
        Stmt::UnsafeBlock(u) => {
            lemma_stmts_code(env, ctx, st, u.body@, u.body@.len());
        },
        Stmt::Asm(x) => {
            lemma_asm_code(env, ctx, st, x);
        },
        Stmt::Try(t) => {
            lemma_try_code(env, ctx, st, t);
        },
        Stmt::Throw(t) => {
            lemma_expr_code(env, ctx, st, t.value, ret(a));
            let s1 = expr_code(env, ctx, st, t.value, ret(a));
            lemma_raise(s1.code, a);
        },
        Stmt::Panic(p) => {
            lemma_expr_code(env, ctx, st, p.message, ret(a));
            let s1 = expr_code(env, ctx, st, p.message, ret(a));
            lemma_raise(s1.code, a);
        },
        _ => {},
    }
}

/// `break_text` appends.
proof fn lemma_break_text(out: Seq<char>, loops: Seq<(Seq<char>, Seq<char>)>, label: Option<Identifier>)
    ensures
        grown(out, break_text(out, loops, label)),
{
    broadcast use group_grown, group_settled, group_kept, group_stacked;

    reveal(break_text);
}

/// `continue_text` appends.
proof fn lemma_continue_text(out: Seq<char>, loops: Seq<(Seq<char>, Seq<char>)>, label: Option<Identifier>)
    ensures
        grown(out, continue_text(out, loops, label)),
{
    broadcast use group_grown, group_settled, group_kept, group_stacked;

    reveal(continue_text);
}

/// `cond_code` appends.
proof fn lemma_cond_code(env: Env, ctx: Ctx, st: Code, e: Expr, skip: Seq<char>)
    ensures
        appended(st, cond_code(env, ctx, st, e, skip)),
    decreases ctx.depth, 2nat, e, 0nat,
{
    broadcast use group_grown, group_settled, group_kept, group_stacked;

    let a = env.a64();
    match e {
        Expr::Binary(b) => {
            match cond_of(b.operator) {
                Some(c) => {
                    lemma_expr_code(env, ctx, st, *b.left, ret(a));
                    let s1 = expr_code(env, ctx, st, *b.left, ret(a));
                    match *b.right {
                        Expr::Integer(i) => {
                            lemma_load_imm(s1.code, a, tmp(a), i.value);
                        },
                        _ => {
                            lemma_expr_code(env, ctx, s1, *b.right, tmp(a));
                            let s2 = s1.with(s1.code + push_reg(a, ret(a)));
                            lemma_expr_code(env, ctx, s2, *b.right, tmp(a));
                        },
                    }
                },
                None => {
                    lemma_plain_cond(env, ctx, st, e, skip);
                },
            }
        },
        _ => {
            lemma_plain_cond(env, ctx, st, e, skip);
        },
    }
}

/// `plain_cond` appends.
proof fn lemma_plain_cond(env: Env, ctx: Ctx, st: Code, e: Expr, skip: Seq<char>)
    ensures
        appended(st, plain_cond(env, ctx, st, e, skip)),
    decreases ctx.depth, 1nat, e, 0nat,
{
    broadcast use group_grown, group_settled, group_kept, group_stacked;

    let a = env.a64();
    lemma_expr_code(env, ctx, st, e, ret(a));
}

/// `if_code` appends.
proof fn lemma_if_code(env: Env, ctx: Ctx, st: Code, i: IfStmt)
    ensures
        appended(st, if_code(env, ctx, st, i)),
    decreases ctx.depth, 3nat, i, 0nat,
{
    broadcast use group_grown, group_settled, group_kept, group_stacked;

    let skip = lab(".Lelse_"@, st.labels);
    let end = lab(".Lend_"@, st.labels);
    lemma_cond_code(env, ctx, st.labelled(), i.condition, skip);
    let s1 = cond_code(env, ctx, st.labelled(), i.condition, skip);
    lemma_stmts_code(env, ctx, s1, i.then_body@, i.then_body@.len());
    let s2 = stmts_code(env, ctx, s1, i.then_body@, i.then_body@.len());
    let s3 = s2.with(s2.code + ins1("b"@, end) + label_line(skip));
    match i.else_body {
        Some(b) => {
            lemma_stmts_code(env, ctx, s3, b@, b@.len());
        },
        _ => {},
    }
}

/// `while_code` appends.
proof fn lemma_while_code(env: Env, ctx: Ctx, st: Code, w: WhileStmt)
    ensures
        appended(st, while_code(env, ctx, st, w)),
    decreases ctx.depth, 3nat, w, 0nat,
{
    broadcast use group_grown, group_settled, group_kept, group_stacked;

    let a = env.a64();
    let start = lab(".Lwhile_"@, st.labels);
    let end = lab(".Lwend_"@, st.labels);
    let inner = Ctx { loops: ctx.loops.push((start, end)), ..ctx };
    lemma_expr_code(
        env,
        inner,
        st.labelled().with(st.code + label_line(start)),
        w.condition,
        ret(a),
    );
    let s1 = expr_code(env, inner, st.labelled().with(st.code + label_line(start)), w.condition, ret(a));
    let s2 = s1.with(s1.code + ins1i("cmp"@, ret(a), 0) + ins1("beq"@, end));
    lemma_stmts_code(env, inner, s2, w.body@, w.body@.len());
}

/// `opt_code` appends.
proof fn lemma_opt_code(env: Env, ctx: Ctx, st: Code, e: Option<Box<Expr>>, target: Seq<char>)
    ensures
        appended(st, opt_code(env, ctx, st, e, target)),
    decreases ctx.depth, 1nat, e, 0nat,
{
    broadcast use group_grown, group_settled, group_kept, group_stacked;

    match e {
        Some(x) => {
            lemma_expr_code(env, ctx, st, *x, target);
        },
        None => {
            lemma_load_imm(st.code, env.a64(), target, 0);
        },
    }
}

/// `step_code` appends.
proof fn lemma_step_code(env: Env, ctx: Ctx, st: Code, e: Option<Box<Expr>>, slot: i32)
    ensures
        appended(st, step_code(env, ctx, st, e, slot)),
    decreases ctx.depth, 1nat, e, 0nat,
{
    broadcast use group_grown, group_settled, group_kept, group_stacked;

    let a = env.a64();
    match e {
        Some(x) => {
            lemma_expr_code(env, ctx, st, *x, ret(a));
        },
        _ => {},
    }
}

/// `for_range_code` appends.
proof fn lemma_for_range_code(env: Env, ctx: Ctx, st: Code, fr: ForRangeStmt)
    ensures
        appended(st, for_range_code(env, ctx, st, fr)),
    decreases ctx.depth, 3nat, fr, 0nat,
{
    let a = env.a64();
    let id = st.labels;
    let bound = down8(st.off);
    let step = down8(bound);
    lemma_range_entry(st);
    lemma_expr_code(env, ctx, range_entry(st), fr.from, ret(a));
    let s1 = expr_code(env, ctx, range_entry(st), fr.from, ret(a));
    lemma_place_var(a, s1, fr.var.name@);
    let (loc, s2) = place_var(a, s1, fr.var.name@);
    lemma_store_var(s2.code, a, loc, ret(a));
    lemma_expr_code(env, ctx, s2.with(store_var(s2.code, a, loc, ret(a))), fr.to, ret(a));
    let s3 = expr_code(env, ctx, s2.with(store_var(s2.code, a, loc, ret(a))), fr.to, ret(a));
    let s4 = s3.with(s3.code + mem_line("str"@, ret(a), fp(a), bound as int));
    lemma_step_code(env, ctx, s4, fr.step, step);
    let s5 = step_code(env, ctx, s4, fr.step, step);
    lemma_range_head(s5.code, a, id, loc, bound, step);
    let s6 = s5.with(range_head(s5.code, a, id, loc, bound, step));
    lemma_stmts_code(env, range_ctx(ctx, id), s6, fr.body@, fr.body@.len());
    let s7 = stmts_code(env, range_ctx(ctx, id), s6, fr.body@, fr.body@.len());
    lemma_range_tail(s7.code, a, id, loc, step);
    let stored = s2.with(store_var(s2.code, a, loc, ret(a)));
    lemma_with(s2, stored.code);
    lemma_grown_add(s3.code, mem_line("str"@, ret(a), fp(a), bound as int));
    lemma_with(s3, s4.code);
    lemma_with(s5, s6.code);
    let last = s7.with(range_tail(s7.code, a, id, loc, step));
    lemma_with(s7, last.code);
    lemma_then(st, range_entry(st), s1);
    lemma_then(st, s1, s2);
    lemma_then(st, s2, stored);
    lemma_then(st, stored, s3);
    lemma_then(st, s3, s4);
    lemma_then(st, s4, s5);
    lemma_then(st, s5, s6);
    lemma_then(st, s6, s7);
    lemma_then(st, s7, last);
}

/// `for_in_code` appends.
proof fn lemma_for_in_code(env: Env, ctx: Ctx, st: Code, fi: ForInStmt)
    ensures
        appended(st, for_in_code(env, ctx, st, fi)),
    decreases ctx.depth, 3nat, fi, list_len(fi.iterable) + 1,
{
    broadcast use group_grown, group_settled, group_kept, group_stacked;

    match fi.iterable {
        Expr::String_(s) => {
            lemma_str_loop_code(env, ctx, st, fi, parts_text(s.parts@));
        },
        Expr::Range(r) => {
            lemma_range_loop_code(env, ctx, st, fi, r);
        },
        Expr::List(l) => {
            lemma_unrolled(env, ctx, st, fi, l.elements@.len());
        },
        _ => {},
    }
}

/// `str_loop_code` appends.
proof fn lemma_str_loop_code(env: Env, ctx: Ctx, st: Code, fi: ForInStmt, t: Seq<char>)
    ensures
        appended(st, str_loop_code(env, ctx, st, fi, t)),
    decreases ctx.depth, 3nat, fi, 0nat,
{
    broadcast use group_grown, group_settled, group_kept, group_stacked;

    let a = env.a64();
    let cond = lab(".Lfistrcond_"@, st.labels);
    let end = lab(".Lfistrend_"@, st.labels);
    lemma_place_var(a, st.intern(t).labelled(), fi.var.name@);
    let (loc, s1) = place_var(a, st.intern(t).labelled(), fi.var.name@);
    lemma_str_loop_head(s1.code, a, st.strs.len(), byte_len(t) as nat, cond, end);
    let o = str_loop_head(s1.code, a, st.strs.len(), byte_len(t) as nat, cond, end);
    lemma_store_var(o, a, loc, ret(a));
    lemma_stmts_code(
        env,
        Ctx { loops: ctx.loops.push((cond, end)), ..ctx },
        s1.with(store_var(o, a, loc, ret(a))),
        fi.body@,
        fi.body@.len(),
    );
}

/// `range_loop_code` appends.
proof fn lemma_range_loop_code(env: Env, ctx: Ctx, st: Code, fi: ForInStmt, r: RangeExpr)
    ensures
        appended(st, range_loop_code(env, ctx, st, fi, r)),
    decreases ctx.depth, 3nat, fi, 0nat,
{
    let a = env.a64();
    let id = st.labels;
    let bound = down8(st.off);
    let step = down8(bound);
    lemma_range_entry(st);
    lemma_opt_code(env, ctx, range_entry(st), r.start, ret(a));
    let s1 = opt_code(env, ctx, range_entry(st), r.start, ret(a));
    lemma_place_var(a, s1, fi.var.name@);
    let (loc, s2) = place_var(a, s1, fi.var.name@);
    lemma_store_var(s2.code, a, loc, ret(a));
    lemma_opt_code(env, ctx, s2.with(store_var(s2.code, a, loc, ret(a))), r.end, ret(a));
    let s3 = opt_code(env, ctx, s2.with(store_var(s2.code, a, loc, ret(a))), r.end, ret(a));
    let s4 = s3.with(s3.code + mem_line("str"@, ret(a), fp(a), bound as int));
    lemma_step_code(env, ctx, s4, r.step, step);
    let s5 = step_code(env, ctx, s4, r.step, step);
    lemma_range_head(s5.code, a, id, loc, bound, step);
    let s6 = s5.with(range_head(s5.code, a, id, loc, bound, step));
    lemma_stmts_code(env, range_ctx(ctx, id), s6, fi.body@, fi.body@.len());
    let s7 = stmts_code(env, range_ctx(ctx, id), s6, fi.body@, fi.body@.len());
    lemma_range_tail(s7.code, a, id, loc, step);
    let stored = s2.with(store_var(s2.code, a, loc, ret(a)));
    lemma_with(s2, stored.code);
    lemma_grown_add(s3.code, mem_line("str"@, ret(a), fp(a), bound as int));
    lemma_with(s3, s4.code);
    lemma_with(s5, s6.code);
    let last = s7.with(range_tail(s7.code, a, id, loc, step));
    lemma_with(s7, last.code);
    lemma_then(st, range_entry(st), s1);
    lemma_then(st, s1, s2);
    lemma_then(st, s2, stored);
    lemma_then(st, stored, s3);
    lemma_then(st, s3, s4);
    lemma_then(st, s4, s5);
    lemma_then(st, s5, s6);
    lemma_then(st, s6, s7);
    lemma_then(st, s7, last);
}

/// `unrolled` appends.
proof fn lemma_unrolled(env: Env, ctx: Ctx, st: Code, fi: ForInStmt, k: nat)
    ensures
        appended(st, unrolled(env, ctx, st, fi, k)),
    decreases ctx.depth, 3nat, fi, k,
{
    broadcast use group_grown, group_settled, group_kept, group_stacked;

    let a = env.a64();
    let elems = fi.iterable->List_0.elements@;
    if !(k == 0 || k > list_len(fi.iterable)) {
        lemma_unrolled(env, ctx, st, fi, (k - 1) as nat);
        let prev = unrolled(env, ctx, st, fi, (k - 1) as nat);
        lemma_expr_code(env, ctx, prev, elems[k - 1], ret(a));
        let s1 = expr_code(env, ctx, prev, elems[k - 1], ret(a));
        lemma_place_var(a, s1, fi.var.name@);
        let (loc, s2) = place_var(a, s1, fi.var.name@);
        lemma_store_var(s2.code, a, loc, ret(a));
        lemma_stmts_code(
            env,
            ctx,
            s2.with(store_var(s2.code, a, loc, ret(a))),
            fi.body@,
            fi.body@.len(),
        );
    }
}

/// `print_args` appends.
proof fn lemma_print_args(env: Env, ctx: Ctx, st: Code, args: Seq<Expr>, k: nat)
    ensures
        appended(st, print_args(env, ctx, st, args, k)),
    decreases ctx.depth, 1nat, args, k,
{
    broadcast use group_grown, group_settled, group_kept, group_stacked;

    let a = env.a64();
    if !(k == 0 || k > args.len()) {
        lemma_print_args(env, ctx, st, args, (k - 1) as nat);
        let prev = print_args(env, ctx, st, args, (k - 1) as nat);
        match args[k - 1] {
            Expr::String_(s) => {
                let t = parts_text(s.parts@);
                lemma_write_str(prev.code, a, prev.strs.len(), byte_len(t) as nat);
            },
            Expr::Float(_) => {
                lemma_expr_code(env, ctx, prev, args[k - 1], ret(a));
                lemma_print_float_code(a, expr_code(env, ctx, prev, args[k - 1], ret(a)));
            },
            _ => {
                lemma_expr_code(env, ctx, prev, args[k - 1], ret(a));
                lemma_print_int_code(a, expr_code(env, ctx, prev, args[k - 1], ret(a)));
            },
        }
    }
}

/// `inputs_code` appends.
proof fn lemma_inputs_code(env: Env, ctx: Ctx, st: Code, ops: Seq<AsmOperand>, base: nat, k: nat)
    ensures
        appended(st, inputs_code(env, ctx, st, ops, base, k)),
    decreases ctx.depth, 1nat, ops, k,
{
    broadcast use group_grown, group_settled, group_kept, group_stacked;

    if !(k == 0 || k > ops.len()) {
        lemma_inputs_code(env, ctx, st, ops, base, (k - 1) as nat);
        lemma_expr_code(
            env,
            ctx,
            inputs_code(env, ctx, st, ops, base, (k - 1) as nat),
            ops[k - 1].expr,
            scratch_reg(env.a64(), base + k - 1),
        );
    }
}

/// `asm_code` appends.
proof fn lemma_asm_code(env: Env, ctx: Ctx, st: Code, x: AsmStmt)
    ensures
        appended(st, asm_code(env, ctx, st, x)),
    decreases ctx.depth, 2nat, x, 0nat,
{
    broadcast use group_grown, group_settled, group_kept, group_stacked;

    let a = env.a64();
    let outs = x.outputs@;
    let ins = x.inputs@;
    let total = outs.len() + ins.len();
    lemma_template_comments(st.code, x);
    let o1 = template_comments(st.code, x);
    let ls = lines(x.template@);
    if !(total > scratch_len(a)) {
        lemma_inputs_code(env, ctx, st.with(o1), ins, outs.len(), ins.len());
        let s1 = inputs_code(env, ctx, st.with(o1), ins, outs.len(), ins.len());
        let o2 = s1.code + template_lines(ls, Some(scratch_regs(a, total)), ls.len());
        lemma_store_outputs(o2, a, s1.vars, outs, outs.len());
    }
}

/// `block_code` appends.
proof fn lemma_block_code(env: Env, ctx: Ctx, st: Code, b: Option<Vec<Stmt>>)
    ensures
        appended(st, block_code(env, ctx, st, b)),
    decreases ctx.depth, 3nat, b, 0nat,
{
    broadcast use group_grown, group_settled, group_kept, group_stacked;

    match b {
        Some(v) => {
            lemma_stmts_code(env, ctx, st, v@, v@.len());
        },
        _ => {},
    }
}

/// `try_code` appends.
proof fn lemma_try_code(env: Env, ctx: Ctx, st: Code, t: TryStmt)
    ensures
        appended(st, try_code(env, ctx, st, t)),
    decreases ctx.depth, 3nat, t, 0nat,
{
    broadcast use group_grown, group_settled, group_kept, group_stacked;

    let a = env.a64();
    let catch_label = lab(".Lcatch_"@, st.labels);
    let end = lab(".Ltryend_"@, st.labels);
    lemma_push_handler(st.code, a, catch_label);
    lemma_stmts_code(
        env,
        ctx,
        st.labelled().with(push_handler(st.code, a, catch_label)),
        t.try_body@,
        t.try_body@.len(),
    );
    let s1 = stmts_code(
        env,
        ctx,
        st.labelled().with(push_handler(st.code, a, catch_label)),
        t.try_body@,
        t.try_body@.len(),
    );
    lemma_block_code(env, ctx, s1.with(s1.code + pop_handler(a)), t.finally_body);
    let s2 = block_code(env, ctx, s1.with(s1.code + pop_handler(a)), t.finally_body);
    let s3 = s2.with(s2.code + ins1("b"@, end) + label_line(catch_label) + pop_handler(a));
    match t.catch_var {
        Some(v) => {
            lemma_place_var(a, s3, v.name@);
            let (loc, s) = place_var(a, s3, v.name@);
            lemma_store_var(s.code, a, loc, ret(a));
        },
        _ => {},
    }
    let s4 = match t.catch_var { Some(v) => { let (loc, s) = place_var(a, s3, v.name@); s.with(store_var(s.code, a, loc, ret(a))) }, None => s3, };
    lemma_block_code(env, ctx, s4, t.catch_body);
    let s5 = block_code(env, ctx, s4, t.catch_body);
    lemma_block_code(env, ctx, s5, t.finally_body);
}

/// `dtors_code` appends.
proof fn lemma_dtors_code(env: Env, st: Code, vars: Seq<(Seq<char>, Seq<char>)>, k: nat)
    ensures
        appended(st, dtors_code(env, st, vars, k)),
    decreases k,
{
    broadcast use group_grown, group_settled, group_kept, group_stacked;

    reveal(dtors_code);
    if !(k == 0 || k > vars.len()) {
        lemma_dtors_code(env, st, vars, (k - 1) as nat);
        let prev = dtors_code(env, st, vars, (k - 1) as nat);
        let t = vars[k - 1].1;
        let s1 = prev.with(prev.code + "    @ dtor: calling ~"@ + t + " for "@ + vars[k - 1].0 + "\n"@);
        if env.dtors.contains_key(t) {
            lemma_stmts_code(env, top_ctx(), s1, env.dtors[t].body@, env.dtors[t].body@.len());
        }
    }
}

/// `top_code` appends.
proof fn lemma_top_code(env: Env, st: Code, decls: Seq<&TopLevel>, k: nat)
    ensures
        appended(st, top_code(env, st, decls, k)),
    decreases k,
{
    broadcast use group_grown, group_settled, group_kept, group_stacked;

    reveal(top_code);
    if !(k == 0 || k > decls.len()) {
        lemma_top_code(env, st, decls, (k - 1) as nat);
        let prev = top_code(env, st, decls, (k - 1) as nat);
        match *decls[k - 1] {
            TopLevel::Statement(s) => {
                lemma_stmt_code(env, top_ctx(), prev, s);
            },
            _ => {},
        }
    }
}

/// Every step only appends: whatever a statement is compiled to, the code, the
/// functions, the string constants and the errors that were there stay in front
/// of it.
pub proof fn law_statements_only_append(env: Env, ctx: Ctx, st: Code, s: Stmt)
    ensures
        appended(st, stmt_code(env, ctx, st, s)),
{
    lemma_stmt_code(env, ctx, st, s);
}

/// A statement moves no variable: each has the location behind it that it had
/// before. A new variable gets a register that was not in use, or a stack slot
/// below those in use; where every variable in a slot has one of its own before
/// the statement, so it is behind it, for as long as the offsets do not run out.
pub proof fn law_variables_keep_their_places(env: Env, ctx: Ctx, st: Code, s: Stmt)
    ensures
        ({
            let b = stmt_code(env, ctx, st, s);
            &&& forall|n: Seq<char>| #[trigger]
                st.vars.contains_key(n) ==> b.vars.contains_key(n) && b.vars[n] == st.vars[n]
            &&& new_registers(st.vars, st.next, b.vars)
            &&& own_slots(st.vars, st.off) && b.off > i32::MIN ==> own_slots(b.vars, b.off)
                && new_slots(st.vars, st.off, b.vars)
        }),
{
    lemma_stmt_code(env, ctx, st, s);
    reveal(kept);
    reveal(settled);
    reveal(stacked);
}

/// No two variables share a register: where every variable in a register has one
/// of its own, so it is when one more variable has got its place.
pub proof fn law_new_variables_get_their_own_registers(a64: bool, st: Code, n: Seq<char>)
    requires
        own_registers(st.vars, st.next),
    ensures
        own_registers(place_var(a64, st, n).1.vars, place_var(a64, st, n).1.next),
{
    reveal(place_var);
    if !st.vars.contains_key(n) {
        let b = place_var(a64, st, n).1;
        assert forall|x: Seq<char>| #[trigger] b.vars.contains_key(x) implies (
        b.vars[x] matches VarLoc::Reg(i) ==> i < b.next) by {
            if x != n {
                assert(st.vars.contains_key(x));
            }
        }
        assert forall|x: Seq<char>, y: Seq<char>|
            #![trigger b.vars.contains_key(x), b.vars.contains_key(y)]
            b.vars.contains_key(x) && b.vars.contains_key(y) && x != y && b.vars[x] is Reg
                implies b.vars[x] != b.vars[y] by {
            if x != n {
                assert(st.vars.contains_key(x));
            }
            if y != n {
                assert(st.vars.contains_key(y));
            }
        }
    }
}

/// The stack slots of the variables of a function lie below the room for the
/// saved registers, each apart from the others, anywhere in its body, for as long
/// as the offsets do not run out.
pub proof fn law_functions_keep_their_slots_apart(env: Env, st: Code, f: FnDef, k: nat)
    ensures
        ({
            let here = stmts_code(env, top_ctx(), body_entry(env, st, f), f.body@, k);
            here.off > i32::MIN ==> {
                &&& own_slots(here.vars, here.off)
                &&& forall|n: Seq<char>| #[trigger]
                    here.vars.contains_key(n) ==> (here.vars[n] matches VarLoc::Stack(o) ==> o + 8
                        <= SLOTS_TOP)
            }
        }),
{
    broadcast use group_grown, group_settled, group_kept, group_stacked;

    let s0 = enter_fn(st);
    let s1 = if dtor_vars(env.dtors.dom(), f.body@, f.body@.len()).len() == 0 {
        s0
    } else {
        Code { epi: Some(exit_label(env, st, f)), ..s0.labelled() }
    };
    assert(f.params.len() == f.params@.len());
    lemma_bind_args(env.a64(), s1, f.params@, f.params@.len());
    let s2 = body_entry(env, st, f);
    lemma_stmts_code(env, top_ctx(), s2, f.body@, k);
    let here = stmts_code(env, top_ctx(), s2, f.body@, k);
    assert(stacked(s1.vars, s1.off, here.vars, here.off));
    reveal(stacked);
    assert(own_slots(s1.vars, s1.off));
}

/// What `b` has besides the code of the present function goes on from `a`.
pub open spec fn extended(a: Code, b: Code) -> bool {
    &&& grown(a.funcs, b.funcs)
    &&& grown(a.strs, b.strs)
    &&& grown(a.errs, b.errs)
}

/// A function is compiled behind the others.
proof fn lemma_fn_code(env: Env, st: Code, f: FnDef)
    ensures
        extended(st, fn_code(env, st, f)),
{
    broadcast use group_grown, group_settled, group_kept, group_stacked;

    lemma_fn_body(env, st, f);
}

/// The body of a function leaves what is there.
proof fn lemma_fn_body(env: Env, st: Code, f: FnDef)
    ensures
        extended(st, fn_body(env, st, f)),
{
    broadcast use group_grown, group_settled, group_kept, group_stacked;

    let vars = dtor_vars(env.dtors.dom(), f.body@, f.body@.len());
    let exit = exit_label(env, st, f);
    let s0 = enter_fn(st);
    let s1 = if vars.len() == 0 {
        s0
    } else {
        Code { epi: Some(exit), ..s0.labelled() }
    };
    assert(f.params.len() == f.params@.len());
    lemma_bind_args(env.a64(), s1, f.params@, f.params@.len());
    let s2 = body_entry(env, st, f);
    lemma_stmts_code(env, top_ctx(), s2, f.body@, f.body@.len());
    let s3 = stmts_code(env, top_ctx(), s2, f.body@, f.body@.len());
    let s4 = s3.with(s3.code + zero_ret(env.a64()) + ins1("b"@, exit));
    lemma_dtors_code(
        env,
        Code {
            epi: Some(lab(".Lepi_"@, st.labels)),
            ..s4.with(s4.code + label_line(exit))
        },
        vars,
        vars.len(),
    );
}

/// Functions are compiled behind the others.
proof fn lemma_fns_code(env: Env, st: Code, decls: Seq<&TopLevel>, k: nat)
    ensures
        extended(st, fns_code(env, st, decls, k)),
    decreases k,
{
    broadcast use group_grown, group_settled, group_kept, group_stacked;

    reveal(fns_code);
    if k > 0 && k <= decls.len() {
        lemma_fns_code(env, st, decls, (k - 1) as nat);
        match *decls[k - 1] {
            TopLevel::FnDef(f) => {
                lemma_fn_code(env, fns_code(env, st, decls, (k - 1) as nat), f);
            },
            _ => {},
        }
    }
}

/// A compiled program adds to what the generator has: no function, string constant
/// or error of an earlier program is lost, so what has failed once goes on failing.
pub proof fn law_programs_only_add(env: Env, st: Code, decls: Seq<&TopLevel>)
    ensures
        extended(st, program_code(env, st, decls)),
        st.errs.len() > 0 ==> compile_result(env, program_code(env, st, decls), decls) is Err,
{
    broadcast use group_grown, group_settled, group_kept, group_stacked;

    lemma_fns_code(env, st, decls, decls.len());
    let s = fns_code(env, st, decls, decls.len());
    lemma_top_code(env, enter_fn(s), decls, decls.len());
    assert(extended(st, program_code(env, st, decls)));
    reveal(grown);
}

/// Destructors run on every exit: in a function that constructs values with
/// destructors, a `return` goes to the destructors for as long as it goes
/// anywhere, the end of the body goes there too, and behind them stands the jump to
/// the epilogue.
pub proof fn law_destructors_run_on_every_exit(env: Env, st: Code, f: FnDef, k: nat)
    requires
        dtor_vars(env.dtors.dom(), f.body@, f.body@.len()).len() > 0,
        k <= f.body@.len(),
    ensures
        ({
            let exit = lab(".Lcleanup_"@, enter_fn(st).labels);
            let s2 = body_entry(env, st, f);
                    let here = stmts_code(env, top_ctx(), s2, f.body@, k);
            let s3 = stmts_code(env, top_ctx(), s2, f.body@, f.body@.len());
            let all = fn_body(env, st, f);
            &&& here.epi == Some(exit) || here.epi is None
            &&& grown(
                s3.code + zero_ret(env.a64()) + ins1("b"@, exit) + label_line(exit),
                all.code,
            )
            &&& exists|front: Seq<char>|
                all.code == #[trigger] (front + ins1("b"@, lab(".Lepi_"@, st.labels)))
        }),
{
    broadcast use group_grown, group_settled, group_kept, group_stacked;

    let vars = dtor_vars(env.dtors.dom(), f.body@, f.body@.len());
    let exit = exit_label(env, st, f);
    let s1 = Code { epi: Some(exit), ..enter_fn(st).labelled() };
    assert(f.params.len() == f.params@.len());
    lemma_bind_args(env.a64(), s1, f.params@, f.params@.len());
    lemma_bound_exit(env.a64(), s1, f.params@, f.params@.len());
    let s2 = body_entry(env, st, f);
    lemma_stmts_code(env, top_ctx(), s2, f.body@, k);
    let s3 = stmts_code(env, top_ctx(), s2, f.body@, f.body@.len());
    let s4 = s3.with(s3.code + zero_ret(env.a64()) + ins1("b"@, exit));
    let s = Code {
        epi: Some(lab(".Lepi_"@, st.labels)),
        ..s4.with(s4.code + label_line(exit))
    };
    lemma_dtors_code(env, s, vars, vars.len());
    let front = dtors_code(env, s, vars, vars.len()).code;
    assert(fn_body(env, st, f).code == front + ins1("b"@, lab(".Lepi_"@, st.labels)));
}

/// Binding the parameters leaves the exit as it is.
proof fn lemma_bound_exit(a64: bool, st: Code, params: Seq<FnParam>, k: nat)
    ensures
        bind_args(a64, st, params, k).epi == st.epi,
    decreases k,
{
    reveal(bind_args);
    if k > 0 && k <= params.len() {
        lemma_bound_exit(a64, st, params, (k - 1) as nat);
    }
}

} // verus!
