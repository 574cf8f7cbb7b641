//! ARM (AArch64 and ARM32) assembly backend.
//!
//! Generates GNU-syntax assembly for 64-bit and 32-bit ARM Linux.  Variables
//! live in callee-saved registers first and in stack slots after that; small
//! functions are inlined, doubly recursive Fibonacci functions become loops,
//! and destructors run on every exit of a function that constructs a value of
//! their type.

use vstd::hash_map::StringHashMap;
use vstd::prelude::*;
use crate::ast::{
    Annotation, AsmOperand, AsmStmt, Assignee, BinaryExpr, BinaryOp, CallExpr, DtorBlock, Expr,
    FnDef, FnParam, ForInStmt, ForRangeStmt, Identifier, IfStmt, LambdaExpr, MemberAccessExpr,
    Program, RangeExpr, Stmt, StructDef, TopLevel, TryStmt, UnaryOp, WhileStmt,
};
use crate::cstar::raw::arm_model::{
    add_imm, aligns_text, arg_code, arg_len, arg_reg, args_code, asm_code, binary_code, bind_args,
    bind_params, block_code, break_text, builtin_code, byte_reg, call_code, captures, ceil_to, Code,
    compile_result, cond_code, cond_of, continue_text, cset, direct_args, dtors_code, elf_text,
    enter_fn, epilogue_text, exit_call, expr_code, fib_text, file_head, float_op, float_tail, fmov,
    fn_body, fn_code, fn_text, fns_code, fns_text, for_in_code, for_range_code, fp, fresh_code,
    general_op, if_code, imm_op, inline_code, inputs_code, inverse, jump_handler, lambda_code,
    load_fn, load_imm, load_str, load_var, load_var_unless, made_fn, main_code, memcpy_loop,
    memset_loop, mov_ret, movk_line, newline_code, opt_code, place_var, plain_cond, pool_len,
    pool_list, pool_min, pool_reg, pop_args, pop_handler, pop_reg, print_args, print_float_code,
    print_float_head, print_float_tail, print_int_code, print_int_text, program_code, prologue,
    push_handler, push_reg, pushed_args, raise, range_head, range_loop_code, range_tail, real_call,
    reg_op, reg_prefix, restore_pairs, ret, return_jump, save_pairs, scratch_len, scratch_reg,
    scratch_regs, set_compare, slot_bytes, SLOTS_TOP, spin_loop, stack_align, step_code, stmt_code,
    stmts_code, store_outputs, store_var, store_var_unless, str_code, str_loop_code, str_loop_head,
    sub_imm, target_of, template_comments, tls_access, tmp, tmp2, tmp3, top_code, top_ctx, try_code,
    unrolled, vfp_conds, while_code, write_str, zero_ret,
};
use crate::cstar::raw::common::{
    bump, bumped, collect_dtor_vars, collect_free_vars_expr, fib_shape, finds_break, finds_continue,
    flatten_program, inlineable, is_fib, is_inlineable, is_plain_arg, is_plain_behind, lowered,
    MAX_INLINE_DEPTH, PairList, program_decls, push_operand_list, string_parts_text,
    struct_field_offset, VarLoc,
};
use crate::cstar::raw::limits::{
    asm_ok, binary_ok, block_ok, call_ok, cond_ok, expr_ok, exprs_ok, for_in_ok, lemma_expr_at,
    lemma_operand_at, lemma_stmt_at, operands_ok, opt_ok, stmt_ok, stmts_ok, Target, try_ok,
};
use crate::cstar::raw::lines::{
    emit1, emit1i, emit2, emit2i, emit3, emit4, emit_label, emit_mem, ins1, ins1i, ins2i,
    label_line,
};
use crate::cstar::raw::model::{
    AlignList, annotated_align, any_main, assert_text, builtin_name, clone_opt, CompiledFn, Ctx,
    dtor_comment_text, emit_strings, emit_template, Env, FnList, fresh_env, is_builtin, lab, label,
    lemma_any_main_push, note_aligns, noted, offset_of, opt_text, restore_params, result_text,
    save_params, saved_matches, str_name,
};
use crate::text::{
    byte_len, byte_length, cat, cat3, insert_before_first, int_dec, numbered, push_dec, push_wide,
    repeat, same, text, TextList,
};
use crate::cstar::raw::support::{declares_main, decls_ok, fn_ok, fns_ok, supports};

verus! {

// ---------------------------------------------------------------------------
// Registers
// ---------------------------------------------------------------------------

/// The return register.
fn ret_reg(a64: bool) -> (r: &'static str)
    ensures
        r@ == ret(a64),
{
    proof {
        reveal(ret);
    }
    if a64 {
        "x0"
    } else {
        "r0"
    }
}

/// The first scratch register.
fn tmp_reg(a64: bool) -> (r: &'static str)
    ensures
        r@ == tmp(a64),
{
    proof {
        reveal(tmp);
    }
    if a64 {
        "x9"
    } else {
        "r12"
    }
}

/// The second scratch register.
fn tmp_reg2(a64: bool) -> (r: &'static str)
    ensures
        r@ == tmp2(a64),
{
    proof {
        reveal(tmp2);
    }
    if a64 {
        "x10"
    } else {
        "r3"
    }
}

/// The third scratch register.
fn tmp_reg3(a64: bool) -> (r: &'static str)
    ensures
        r@ == tmp3(a64),
{
    proof {
        reveal(tmp3);
    }
    if a64 {
        "x11"
    } else {
        "r2"
    }
}

/// The frame pointer.
fn frame_reg(a64: bool) -> (r: &'static str)
    ensures
        r@ == fp(a64),
{
    proof {
        reveal(fp);
    }
    if a64 {
        "x29"
    } else {
        "r11"
    }
}

/// The number of callee-saved registers that hold variables.
fn pool_size(a64: bool) -> (n: usize)
    ensures
        n == pool_len(a64),
{
    if a64 {
        10
    } else {
        7
    }
}

/// The callee-saved register `i`.
fn pool_name(a64: bool, i: usize) -> (r: String)
    ensures
        r@ == pool_reg(a64, i as int),
{
    proof {
        reveal(pool_reg);
        reveal(reg_prefix);
    }
    let base: u128 = if a64 {
        19
    } else {
        4
    };
    let n: u128 = i as u128 + base;
    let mut s = text(
        if a64 {
            "x"
        } else {
            "r"
        },
    );
    push_wide(&mut s, n);
    s
}

/// The number of argument registers.
fn arg_count(a64: bool) -> (n: usize)
    ensures
        n == arg_len(a64),
{
    if a64 {
        8
    } else {
        4
    }
}

/// The argument register `i`.
fn arg_name(a64: bool, i: usize) -> (r: String)
    ensures
        r@ == arg_reg(a64, i as int),
{
    proof {
        reveal(arg_reg);
        reveal(reg_prefix);
    }
    numbered(
        if a64 {
            "x"
        } else {
            "r"
        },
        i as u64,
    )
}

/// The register of inline assembly operand `i`.
fn scratch_name(a64: bool, i: usize) -> (r: String)
    requires
        i < scratch_len(a64),
    ensures
        r@ == scratch_reg(a64, i as int),
{
    proof {
        reveal(scratch_reg);
    }
    if a64 {
        numbered("x", i as u64 + 9)
    } else if i == 4 {
        text("r12")
    } else {
        numbered("r", i as u64)
    }
}

// ---------------------------------------------------------------------------
// Straight-line pieces
// ---------------------------------------------------------------------------

/// Appends `movk reg, #c, lsl #shift`.
fn emit_movk(out: &mut String, reg: &str, c: u64, shift: &str)
    ensures
        final(out)@ == old(out)@ + movk_line(reg@, c, shift@),
{
    proof {
        reveal(movk_line);
    }
    out.append("    movk ");
    out.append(reg);
    out.append(", #");
    push_dec(out, c);
    out.append(", lsl #");
    out.append(shift);
    out.append("\n");
    assert(out@ =~= old(out)@ + movk_line(reg@, c, shift@));
}

/// Loads a constant: with `movz`/`movk` in 16-bit pieces on AArch64, and with
/// `mov`/`movt` on ARM32.
fn emit_load_imm(out: &mut String, a64: bool, reg: &str, value: i64)
    ensures
        final(out)@ == load_imm(old(out)@, a64, reg@, value),
{
    proof {
        reveal(load_imm);
    }
    if a64 {
        if 0 <= value && value <= 65535 {
            emit1i(out, "mov", reg, value);
        } else if -65536 <= value && value < 0 {
            emit1i(out, "movn", reg, !value & 0xffff);
        } else {
            let u: u64 = value as u64;
            let c0: u64 = u & 0xffff;
            let c1: u64 = (u >> 16) & 0xffff;
            let c2: u64 = (u >> 32) & 0xffff;
            let c3: u64 = (u >> 48) & 0xffff;
            assert(u & 0xffff <= 0xffff) by (bit_vector);
            emit1i(out, "mov", reg, c0 as i64);
            if c1 != 0 {
                emit_movk(out, reg, c1, "16");
            }
            if c2 != 0 {
                emit_movk(out, reg, c2, "32");
            }
            if c3 != 0 {
                emit_movk(out, reg, c3, "48");
            }
        }
    } else {
        let u: u32 = value as u32;
        let lo: u32 = u & 0xffff;
        let hi: u32 = (u >> 16) & 0xffff;
        emit1i(out, "mov", reg, lo as i64);
        if hi != 0 {
            emit1i(out, "movt", reg, hi as i64);
        }
    }
}

/// Adds a constant to a register.
fn emit_add_imm(out: &mut String, a64: bool, target: &str, src: &str, v: i64)
    ensures
        final(out)@ == add_imm(old(out)@, a64, target@, src@, v),
{
    proof {
        reveal(add_imm);
    }
    if 0 <= v && v <= 4095 {
        emit2i(out, "add", target, src, v);
    } else if -4095 <= v && v < 0 {
        emit2i(out, "sub", target, src, -v);
    } else {
        emit_load_imm(out, a64, tmp_reg(a64), v);
        emit3(out, "add", target, src, tmp_reg(a64));
    }
}

/// Subtracts a constant from a register.
fn emit_sub_imm(out: &mut String, a64: bool, target: &str, src: &str, v: i64)
    ensures
        final(out)@ == sub_imm(old(out)@, a64, target@, src@, v),
{
    proof {
        reveal(sub_imm);
    }
    if 0 <= v && v <= 4095 {
        emit2i(out, "sub", target, src, v);
    } else if -4095 <= v && v < 0 {
        emit2i(out, "add", target, src, -v);
    } else {
        emit_load_imm(out, a64, tmp_reg(a64), v);
        emit3(out, "sub", target, src, tmp_reg(a64));
    }
}

/// The condition code that holds exactly where `cond` does not.
fn inverse_of<'c>(cond: &'c str) -> (r: &'c str)
    ensures
        r@ == inverse(cond@),
{
    proof {
        reveal(inverse);
    }
    if same(cond, "eq") {
        "ne"
    } else if same(cond, "ne") {
        "eq"
    } else if same(cond, "lt") {
        "ge"
    } else if same(cond, "ge") {
        "lt"
    } else if same(cond, "gt") {
        "le"
    } else if same(cond, "le") {
        "gt"
    } else {
        cond
    }
}

/// Sets a register to zero or one by the condition flags.
fn emit_cset(out: &mut String, a64: bool, target: &str, cond: &str)
    ensures
        final(out)@ == cset(old(out)@, a64, target@, cond@),
{
    proof {
        reveal(cset);
    }
    if a64 {
        emit2(out, "cset", target, cond);
    } else {
        out.append("    mov");
        out.append(cond);
        out.append(" ");
        out.append(target);
        out.append(", #1\n");
        out.append("    mov");
        out.append(inverse_of(cond));
        out.append(" ");
        out.append(target);
        out.append(", #0\n");
    }
}

/// Compares a register with a constant and sets `target` to zero or one.
fn emit_cmp_setcc(out: &mut String, a64: bool, target: &str, src: &str, v: i64, cond: &str)
    ensures
        final(out)@ == set_compare(old(out)@, a64, target@, src@, v, cond@),
{
    proof {
        reveal(set_compare);
    }
    if -2048 <= v && v <= 2047 {
        emit1i(out, "cmp", src, v);
    } else {
        emit_load_imm(out, a64, tmp_reg(a64), v);
        emit2(out, "cmp", src, tmp_reg(a64));
    }
    emit_cset(out, a64, target, cond);
}

/// Pushes a register onto the stack.
fn emit_push(out: &mut String, a64: bool, r: &str)
    ensures
        final(out)@ == old(out)@ + push_reg(a64, r@),
{
    proof {
        reveal(push_reg);
    }
    if a64 {
        out.append("    str ");
        out.append(r);
        out.append(", [sp, #-16]!\n");
    } else {
        out.append("    push {");
        out.append(r);
        out.append("}\n");
    }
    assert(out@ =~= old(out)@ + push_reg(a64, r@));
}

/// Pops a register from the stack.
fn emit_pop(out: &mut String, a64: bool, r: &str)
    ensures
        final(out)@ == old(out)@ + pop_reg(a64, r@),
{
    proof {
        reveal(pop_reg);
    }
    if a64 {
        out.append("    ldr ");
        out.append(r);
        out.append(", [sp], #16\n");
    } else {
        out.append("    pop {");
        out.append(r);
        out.append("}\n");
    }
    assert(out@ =~= old(out)@ + pop_reg(a64, r@));
}

/// Loads the address of string constant `n`.
fn emit_load_str(out: &mut String, a64: bool, target: &str, n: usize)
    ensures
        final(out)@ == load_str(old(out)@, a64, target@, n as nat),
{
    proof {
        reveal(load_str);
    }
    let name = str_name(n);
    if a64 {
        emit2(out, "adrp", target, name.as_str());
        let low = cat(":lo12:", name.as_str());
        emit3(out, "add", target, target, low.as_str());
    } else {
        let lit = cat("=", name.as_str());
        emit2(out, "ldr", target, lit.as_str());
    }
}

/// Stores `src` to a variable.
fn emit_store_var(out: &mut String, a64: bool, loc: VarLoc, src: &str)
    ensures
        final(out)@ == store_var(old(out)@, a64, loc, src@),
{
    proof {
        reveal(store_var);
    }
    match loc {
        VarLoc::Reg(i) => {
            let r = pool_name(a64, i);
            emit2(out, "mov", r.as_str(), src);
        },
        VarLoc::Stack(off) => {
            emit_mem(out, "str", src, frame_reg(a64), off);
        },
    }
}

/// Stores `src` to a variable that is not in `src` already.
fn emit_store_var_unless(out: &mut String, a64: bool, loc: VarLoc, src: &str)
    ensures
        final(out)@ == store_var_unless(old(out)@, a64, loc, src@),
{
    proof {
        reveal(store_var_unless);
        reveal(store_var);
    }
    match loc {
        VarLoc::Reg(i) => {
            let r = pool_name(a64, i);
            if !same(r.as_str(), src) {
                emit2(out, "mov", r.as_str(), src);
            }
        },
        VarLoc::Stack(off) => {
            emit_mem(out, "str", src, frame_reg(a64), off);
        },
    }
}

/// Loads a variable.
fn emit_load_var(out: &mut String, a64: bool, loc: VarLoc, target: &str)
    ensures
        final(out)@ == load_var(old(out)@, a64, loc, target@),
{
    proof {
        reveal(load_var);
    }
    match loc {
        VarLoc::Reg(i) => {
            let r = pool_name(a64, i);
            emit2(out, "mov", target, r.as_str());
        },
        VarLoc::Stack(off) => {
            emit_mem(out, "ldr", target, frame_reg(a64), off);
        },
    }
}

/// Loads a variable into `target` unless it is there already.
fn emit_load_var_unless(out: &mut String, a64: bool, loc: VarLoc, target: &str)
    ensures
        final(out)@ == load_var_unless(old(out)@, a64, loc, target@),
{
    proof {
        reveal(load_var_unless);
        reveal(load_var);
    }
    match loc {
        VarLoc::Reg(i) => {
            let r = pool_name(a64, i);
            if !same(r.as_str(), target) {
                emit2(out, "mov", target, r.as_str());
            }
        },
        VarLoc::Stack(off) => {
            emit_mem(out, "ldr", target, frame_reg(a64), off);
        },
    }
}

/// Moves the return register to `target` unless it is `target`.
fn emit_mov_ret(out: &mut String, a64: bool, target: &str)
    ensures
        final(out)@ == mov_ret(old(out)@, a64, target@),
{
    proof {
        reveal(mov_ret);
    }
    if !same(target, ret_reg(a64)) {
        emit2(out, "mov", target, ret_reg(a64));
    }
}

/// The mnemonic of a three-register operation.
fn reg_op_of(op: BinaryOp) -> (r: Option<&'static str>)
    ensures
        r matches Some(m) ==> reg_op(op) == Some(m@),
        r is None ==> reg_op(op) is None,
{
    proof {
        reveal(reg_op);
    }
    match op {
        BinaryOp::Add => Some("add"),
        BinaryOp::Sub => Some("sub"),
        BinaryOp::Mul => Some("mul"),
        BinaryOp::Div => Some("sdiv"),
        BinaryOp::And | BinaryOp::BitAnd => Some("and"),
        BinaryOp::Or | BinaryOp::BitOr => Some("orr"),
        BinaryOp::BitXor => Some("eor"),
        _ => None,
    }
}

/// The condition code of a comparison.
fn condition_of(op: BinaryOp) -> (r: Option<&'static str>)
    ensures
        r matches Some(m) ==> cond_of(op) == Some(m@),
        r is None ==> cond_of(op) is None,
{
    proof {
        reveal(cond_of);
    }
    match op {
        BinaryOp::Lt => Some("lt"),
        BinaryOp::Gt => Some("gt"),
        BinaryOp::Le => Some("le"),
        BinaryOp::Ge => Some("ge"),
        BinaryOp::Eq => Some("eq"),
        BinaryOp::Ne => Some("ne"),
        _ => None,
    }
}

/// The operation `op` of the return register with a constant.
fn emit_imm_op(out: &mut String, a64: bool, op: BinaryOp, target: &str, v: i64)
    ensures
        final(out)@ == imm_op(old(out)@, a64, op, target@, v),
{
    proof {
        reveal(imm_op);
    }
    let r = ret_reg(a64);
    match op {
        BinaryOp::Add => {
            emit_add_imm(out, a64, target, r, v);
        },
        BinaryOp::Sub => {
            emit_sub_imm(out, a64, target, r, v);
        },
        BinaryOp::Mod => {
            emit_load_imm(out, a64, tmp_reg(a64), v);
            emit3(out, "sdiv", tmp_reg2(a64), r, tmp_reg(a64));
            if a64 {
                emit4(out, "msub", target, tmp_reg2(a64), tmp_reg(a64), r);
            } else {
                emit4(out, "mls", target, tmp_reg(a64), tmp_reg2(a64), r);
            }
        },
        BinaryOp::Shl => {
            emit2i(out, "lsl", target, r, v & 63);
        },
        BinaryOp::Shr => {
            emit2i(out, "asr", target, r, v & 63);
        },
        _ => {
            match condition_of(op) {
                Some(c) => {
                    emit_cmp_setcc(out, a64, target, r, v, c);
                },
                None => {
                    match reg_op_of(op) {
                        Some(m) => {
                            emit_load_imm(out, a64, tmp_reg(a64), v);
                            emit3(out, m, target, r, tmp_reg(a64));
                        },
                        None => {
                            emit_load_imm(out, a64, target, 0);
                        },
                    }
                },
            }
        },
    }
}

/// The operation `op` of the second scratch register with the first.
fn emit_general_op(out: &mut String, a64: bool, op: BinaryOp, target: &str)
    ensures
        final(out)@ == general_op(old(out)@, a64, op, target@),
{
    proof {
        reveal(general_op);
    }
    let l = tmp_reg2(a64);
    let r = tmp_reg(a64);
    match op {
        BinaryOp::Mod => {
            let q = if same(target, r) {
                tmp_reg3(a64)
            } else {
                target
            };
            emit3(out, "sdiv", q, l, r);
            if a64 {
                emit4(out, "msub", target, q, r, l);
            } else {
                emit4(out, "mls", target, r, q, l);
            }
        },
        BinaryOp::Shl => {
            if a64 {
                emit3(out, "lsl", target, l, r);
            } else {
                let sh = cat("lsl ", r);
                emit3(out, "mov", target, l, sh.as_str());
            }
        },
        BinaryOp::Shr => {
            if a64 {
                emit3(out, "asr", target, l, r);
            } else {
                let sh = cat("asr ", r);
                emit3(out, "mov", target, l, sh.as_str());
            }
        },
        _ => {
            match condition_of(op) {
                Some(c) => {
                    emit2(out, "cmp", l, r);
                    emit_cset(out, a64, target, c);
                },
                None => {
                    match reg_op_of(op) {
                        Some(m) => {
                            emit3(out, m, target, l, r);
                        },
                        None => {
                            emit1i(out, "mov", target, 0);
                        },
                    }
                },
            }
        },
    }
}

/// The condition codes of a float comparison on ARM32.
fn vfp_conditions(op: BinaryOp) -> (r: (&'static str, &'static str))
    ensures
        (r.0@, r.1@) == vfp_conds(op),
{
    proof {
        reveal(vfp_conds);
    }
    match op {
        BinaryOp::Lt => ("mi", "pl"),
        BinaryOp::Gt => ("gt", "le"),
        BinaryOp::Le => ("ls", "hi"),
        BinaryOp::Ge => ("ge", "lt"),
        BinaryOp::Eq => ("eq", "ne"),
        _ => ("ne", "eq"),
    }
}

/// The mnemonic of a float operation.
fn float_op_of(a64: bool, op: BinaryOp) -> (r: Option<&'static str>)
    ensures
        r matches Some(m) ==> float_op(a64, op) == Some(m@),
        r is None ==> float_op(a64, op) is None,
{
    proof {
        reveal(float_op);
    }
    match op {
        BinaryOp::Add => Some(
            if a64 {
                "fadd"
            } else {
                "vadd.f64"
            },
        ),
        BinaryOp::Sub => Some(
            if a64 {
                "fsub"
            } else {
                "vsub.f64"
            },
        ),
        BinaryOp::Mul => Some(
            if a64 {
                "fmul"
            } else {
                "vmul.f64"
            },
        ),
        BinaryOp::Div => Some(
            if a64 {
                "fdiv"
            } else {
                "vdiv.f64"
            },
        ),
        _ => None,
    }
}

/// The mnemonic that moves between general and float registers.
fn fmov_op(a64: bool) -> (r: &'static str)
    ensures
        r@ == fmov(a64),
{
    proof {
        reveal(fmov);
    }
    if a64 {
        "fmov"
    } else {
        "vmov"
    }
}

/// The float operation on `d8` and `d9`, with its result in `target`.
fn emit_float_tail(out: &mut String, a64: bool, op: BinaryOp, target: &str)
    ensures
        final(out)@ == float_tail(old(out)@, a64, op, target@),
{
    proof {
        reveal(float_tail);
    }
    match condition_of(op) {
        Some(c) => {
            if a64 {
                emit2(out, "fcmp", "d8", "d9");
                emit2(out, "cset", target, c);
            } else {
                let (yes, no) = vfp_conditions(op);
                emit2(out, "vcmp.f64", "d8", "d9");
                out.append("    vmrs APSR_nzcv, FPSCR\n");
                out.append("    mov");
                out.append(yes);
                out.append(" ");
                out.append(target);
                out.append(", #1\n");
                out.append("    mov");
                out.append(no);
                out.append(" ");
                out.append(target);
                out.append(", #0\n");
            }
        },
        None => {
            match float_op_of(a64, op) {
                Some(m) => {
                    emit3(out, m, "d8", "d8", "d9");
                },
                None => {
                    out.append(
                        if a64 {
                            "    fmov d8, #0.0\n"
                        } else {
                            "    vmov.f64 d8, #0\n"
                        },
                    );
                },
            }
            emit2(out, fmov_op(a64), target, "d8");
        },
    }
}

/// Writes string constant `n`, of `len` bytes, to the standard output.
fn emit_write_str(out: &mut String, a64: bool, n: usize, len: usize)
    ensures
        final(out)@ == write_str(old(out)@, a64, n as nat, len as nat),
{
    proof {
        reveal(write_str);
    }
    if a64 {
        out.append(
            "    mov x0, #1\n         // fd = stdout\n    adrp x1, .str",
        );
        push_dec(out, n as u64);
        out.append("\n    add x1, x1, :lo12:.str");
        push_dec(out, n as u64);
        out.append("\n    mov x2, #");
        push_dec(out, len as u64);
        out.append("\n    mov x8, #64\n    svc #0\n");
    } else {
        out.append("    mov r0, #1\n    ldr r1, =.str");
        push_dec(out, n as u64);
        out.append("\n    mov r2, #");
        push_dec(out, len as u64);
        out.append("\n    mov r7, #4\n    svc #0\n");
    }
}

/// Takes the innermost exception handler off the handler stack.
fn pop_handler_text(a64: bool) -> (r: &'static str)
    ensures
        r@ == pop_handler(a64),
{
    proof {
        reveal(pop_handler);
    }
    if a64 {
        "    adrp x9, __handler_idx\n    add x9, x9, :lo12:__handler_idx\n    ldr x10, [x9]\n    sub x10, x10, #1\n    str x10, [x9]\n"
    } else {
        "    ldr r12, =__handler_idx\n    ldr r3, [r12]\n    sub r3, r3, #1\n    str r3, [r12]\n"
    }
}

/// Puts the handler at `l` onto the handler stack.
fn emit_push_handler(out: &mut String, a64: bool, l: &str)
    ensures
        final(out)@ == push_handler(old(out)@, a64, l@),
{
    proof {
        reveal(push_handler);
    }
    if a64 {
        emit2(out, "adrp", "x0", l);
        let low = cat(":lo12:", l);
        emit3(out, "add", "x0", "x0", low.as_str());
        out.append(
            "    adrp x9, __handler_idx\n    add x9, x9, :lo12:__handler_idx\n    ldr x10, [x9]\n    adrp x11, __handler_stack\n    add x11, x11, :lo12:__handler_stack\n    str x0, [x11, x10, lsl #3]\n    add x10, x10, #1\n    str x10, [x9]\n",
        );
    } else {
        let lit = cat("=", l);
        emit2(out, "ldr", "r0", lit.as_str());
        out.append(
            "    ldr r12, =__handler_idx\n    ldr r3, [r12]\n    ldr r2, =__handler_stack\n    str r0, [r2, r3, lsl #2]\n    add r3, r3, #1\n    str r3, [r12]\n",
        );
    }
}

/// Raises the value in the return register.
fn emit_raise(out: &mut String, a64: bool)
    ensures
        final(out)@ == raise(old(out)@, a64),
{
    proof {
        reveal(raise);
        reveal(jump_handler);
    }
    out.append(pop_handler_text(a64));
    out.append(
        if a64 {
            "    adrp x11, __handler_stack\n    add x11, x11, :lo12:__handler_stack\n    ldr x8, [x11, x10, lsl #3]\n    br x8\n"
        } else {
            "    ldr r2, =__handler_stack\n    ldr r8, [r2, r3, lsl #2]\n    bx r8\n"
        },
    );
}

/// Puts zero into the return register.
fn zero_text(a64: bool) -> (r: &'static str)
    ensures
        r@ == zero_ret(a64),
{
    proof {
        reveal(zero_ret);
    }
    if a64 {
        "    mov x0, #0\n"
    } else {
        "    mov r0, #0\n"
    }
}

/// Takes `n` arguments from the stack to their registers.
fn emit_pop_args(out: &mut String, a64: bool, n: usize)
    ensures
        final(out)@ == pop_args(old(out)@, a64, n as nat),
{
    proof {
        reveal(pop_args);
    }
    let mut k: usize = n;
    while k > 0
        invariant
            k <= n,
            pop_args(out@, a64, k as nat) == pop_args(old(out)@, a64, n as nat),
        decreases k,
    {
        proof {
            reveal(pop_args);
        }
        let r = arg_name(a64, k - 1);
        emit_pop(out, a64, r.as_str());
        k = k - 1;
    }
}

/// The copy loop of `memcpy`.
fn emit_memcpy_loop(out: &mut String, a64: bool, l: &str, end: &str)
    ensures
        final(out)@ == memcpy_loop(old(out)@, a64, l@, end@),
{
    proof {
        reveal(memcpy_loop);
    }
    emit_label(out, l);
    if a64 {
        emit2(out, "cbz", "x2", end);
        out.append("    ldrb w9, [x1], #1\n");
        out.append("    strb w9, [x0], #1\n");
        out.append("    sub x2, x2, #1\n");
        emit1(out, "b", l);
    } else {
        out.append("    cmp r2, #0\n");
        emit1(out, "beq", end);
        out.append("    ldrb r12, [r1], #1\n");
        out.append("    strb r12, [r0], #1\n");
        out.append("    sub r2, r2, #1\n");
        emit1(out, "b", l);
    }
    emit_label(out, end);
}

/// The fill loop of `memset`.
fn emit_memset_loop(out: &mut String, a64: bool, l: &str, end: &str)
    ensures
        final(out)@ == memset_loop(old(out)@, a64, l@, end@),
{
    proof {
        reveal(memset_loop);
    }
    emit_label(out, l);
    if a64 {
        emit2(out, "cbz", "x2", end);
        out.append("    strb w1, [x0], #1\n");
        out.append("    sub x2, x2, #1\n");
        emit1(out, "b", l);
    } else {
        out.append("    cmp r2, #0\n");
        emit1(out, "beq", end);
        out.append("    strb r1, [r0], #1\n");
        out.append("    sub r2, r2, #1\n");
        emit1(out, "b", l);
    }
    emit_label(out, end);
}

/// The acquire loop of `spin_lock`.
fn emit_spin_loop(out: &mut String, a64: bool, l: &str)
    ensures
        final(out)@ == spin_loop(old(out)@, a64, l@),
{
    proof {
        reveal(spin_loop);
    }
    emit_label(out, l);
    if a64 {
        out.append("    ldaxr w9, [x0]\n");
        emit2(out, "cbnz", "w9", l);
        out.append("    mov w9, #1\n");
        out.append("    stxr w10, w9, [x0]\n");
        emit2(out, "cbnz", "w10", l);
    } else {
        out.append("    ldrex r12, [r0]\n");
        out.append("    cmp r12, #0\n");
        emit1(out, "bne", l);
        out.append("    mov r12, #1\n");
        out.append("    strex r3, r12, [r0]\n");
        out.append("    cmp r3, #0\n");
        emit1(out, "bne", l);
    }
    out.append("    dmb ish\n");
}

/// Accesses thread-local storage.
fn emit_tls_access(out: &mut String, a64: bool, op: &str)
    ensures
        final(out)@ == tls_access(old(out)@, a64, op@),
{
    proof {
        reveal(tls_access);
    }
    if a64 {
        out.append("    mrs x10, tpidr_el0\n");
        out.append("    ");
        out.append(op);
        out.append(" x0, [x10, x9]\n");
    } else {
        out.append("    mrc p15, 0, r3, c13, c0, 3\n");
        out.append("    ");
        out.append(op);
        out.append(" r0, [r3, r12]\n");
    }
}

/// The initialization of a loop over the bytes of a string, and the head of
/// each pass.
fn emit_str_loop_head(out: &mut String, a64: bool, n: usize, len: usize, cond: &str, end: &str)
    ensures
        final(out)@ == str_loop_head(old(out)@, a64, n as nat, len as nat, cond@, end@),
{
    proof {
        reveal(str_loop_head);
        reveal(byte_reg);
    }
    emit1i(out, "mov", tmp_reg(a64), 0);
    emit_len(out, tmp_reg2(a64), len);
    emit_load_str(out, a64, tmp_reg3(a64), n);
    emit_label(out, cond);
    emit2(out, "cmp", tmp_reg(a64), tmp_reg2(a64));
    emit1(out, "bge", end);
    out.append("    ldrb ");
    out.append(
        if a64 {
            "w0"
        } else {
            "r0"
        },
    );
    out.append(", [");
    out.append(tmp_reg3(a64));
    out.append(", ");
    out.append(tmp_reg(a64));
    out.append("]\n");
}

/// Loads a length.
fn emit_len(out: &mut String, reg: &str, len: usize)
    ensures
        final(out)@ == old(out)@ + ins1i("mov"@, reg@, len as int),
{
    proof {
        reveal(ins1i);
        reveal(int_dec);
    }
    out.append("    ");
    out.append("mov");
    out.append(" ");
    out.append(reg);
    out.append(", #");
    push_dec(out, len as u64);
    out.append("\n");
    assert(out@ =~= old(out)@ + ins1i("mov"@, reg@, len as int));
}

/// The head of a counting loop.
fn emit_range_head(out: &mut String, a64: bool, id: usize, loc: VarLoc, bound: i32, step: i32)
    ensures
        final(out)@ == range_head(old(out)@, a64, id, loc, bound, step),
{
    proof {
        reveal(range_head);
    }
    let r = ret_reg(a64);
    let t = tmp_reg(a64);
    let end = label(".Lfrend_", id);
    let pos = label(".Lfrpos_", id);
    let skip = label(".Lfrskip_", id);
    let cond = label(".Lfrcond_", id);
    emit_label(out, cond.as_str());
    emit_mem(out, "ldr", r, frame_reg(a64), step);
    emit1i(out, "cmp", r, 0);
    emit1(out, "bge", pos.as_str());
    emit_load_var(out, a64, loc, r);
    emit_mem(out, "ldr", t, frame_reg(a64), bound);
    emit2(out, "cmp", r, t);
    emit1(out, "ble", end.as_str());
    emit1(out, "b", skip.as_str());
    emit_label(out, pos.as_str());
    emit_load_var(out, a64, loc, r);
    emit_mem(out, "ldr", t, frame_reg(a64), bound);
    emit2(out, "cmp", r, t);
    emit1(out, "bge", end.as_str());
    emit_label(out, skip.as_str());
}

/// The tail of a counting loop.
fn emit_range_tail(out: &mut String, a64: bool, id: usize, loc: VarLoc, step: i32)
    ensures
        final(out)@ == range_tail(old(out)@, a64, id, loc, step),
{
    proof {
        reveal(range_tail);
    }
    let r = ret_reg(a64);
    let t = tmp_reg(a64);
    let incr = label(".Lfrincr_", id);
    emit_label(out, incr.as_str());
    emit_mem(out, "ldr", t, frame_reg(a64), step);
    match loc {
        VarLoc::Reg(i) => {
            let v = pool_name(a64, i);
            emit3(out, "add", v.as_str(), v.as_str(), t);
        },
        VarLoc::Stack(off) => {
            emit_mem(out, "ldr", r, frame_reg(a64), off);
            emit3(out, "add", r, r, t);
            emit_mem(out, "str", r, frame_reg(a64), off);
        },
    }
    let cond = label(".Lfrcond_", id);
    emit1(out, "b", cond.as_str());
    let end = label(".Lfrend_", id);
    emit_label(out, end.as_str());
}

/// The comments in front of an inline assembly block.
fn emit_template_comments(out: &mut String, a: &AsmStmt)
    ensures
        final(out)@ == template_comments(old(out)@, *a),
{
    proof {
        reveal(template_comments);
    }
    out.append("    @ asm block: ");
    out.append(a.template.as_str());
    out.append("\n");
    if a.outputs.len() > 0 {
        out.append("    @ outputs:");
        push_operand_list(out, &a.outputs);
        out.append("\n");
    }
    if a.inputs.len() > 0 {
        out.append("    @ inputs:");
        push_operand_list(out, &a.inputs);
        out.append("\n");
    }
}

/// Stores the output registers of an inline assembly block to the output
/// variables.
fn emit_store_outputs(
    out: &mut String,
    a64: bool,
    vars: &StringHashMap<VarLoc>,
    ops: &Vec<AsmOperand>,
)
    requires
        ops@.len() <= scratch_len(a64),
    ensures
        final(out)@ == store_outputs(old(out)@, a64, vars@, ops@, ops@.len()),
{
    proof {
        reveal(store_outputs);
    }
    let mut k: usize = 0;
    while k < ops.len()
        invariant
            k <= ops.len(),
            ops@.len() <= scratch_len(a64),
            out@ == store_outputs(old(out)@, a64, vars@, ops@, k as nat),
        decreases ops.len() - k,
    {
        proof {
            reveal(store_outputs);
        }
        match &ops[k].expr {
            Expr::Identifier(id) => {
                match vars.get(id.name.as_str()) {
                    Some(loc) => {
                        let r = scratch_name(a64, k);
                        emit_store_var_unless(out, a64, *loc, r.as_str());
                    },
                    None => {},
                }
            },
            _ => {
                out.append("    @ asm output ");
                push_dec(out, k as u64);
                out.append(": non-identifier output not stored\n");
            },
        }
        k = k + 1;
    }
}

/// Loads the address of a function.
fn emit_load_fn(out: &mut String, a64: bool, target: &str, name: &str)
    ensures
        final(out)@ == load_fn(old(out)@, a64, target@, name@),
{
    proof {
        reveal(load_fn);
    }
    if a64 {
        emit2(out, "adrp", target, name);
        let low = cat(":lo12:", name);
        emit3(out, "add", target, target, low.as_str());
    } else {
        let lit = cat("=", name);
        emit2(out, "ldr", target, lit.as_str());
    }
}

/// The jump of a `break`.
fn emit_break(out: &mut String, loops: &PairList, l: &Option<Identifier>)
    ensures
        final(out)@ == break_text(old(out)@, loops@, *l),
{
    proof {
        reveal(break_text);
    }
    match l {
        Some(id) => {
            let t = cat(".Lbreak_lbl_", id.name.as_str());
            if finds_break(loops, t.as_str(), id.name.as_str()) {
                emit1(out, "b", t.as_str());
            } else {
                out.append("    @ break '");
                out.append(id.name.as_str());
                out.append("' — label not found\n");
            }
        },
        None => {
            if loops.len() > 0 {
                emit1(out, "b", loops.second(loops.len() - 1));
            } else {
                out.append("    @ break outside loop (no-op)\n");
            }
        },
    }
}

/// The jump of a `continue`.
fn emit_continue(out: &mut String, loops: &PairList, l: &Option<Identifier>)
    ensures
        final(out)@ == continue_text(old(out)@, loops@, *l),
{
    proof {
        reveal(continue_text);
    }
    match l {
        Some(id) => {
            let t = cat(".Lcont_lbl_", id.name.as_str());
            if finds_continue(loops, t.as_str(), id.name.as_str()) {
                emit1(out, "b", t.as_str());
            } else {
                out.append("    @ continue '");
                out.append(id.name.as_str());
                out.append("' — label not found\n");
            }
        },
        None => {
            if loops.len() > 0 {
                emit1(out, "b", loops.first(loops.len() - 1));
            } else {
                out.append("    @ continue outside loop (no-op)\n");
            }
        },
    }
}

/// Appends the inlined routine that prints the return register as a signed decimal number.
fn push_print_int(out: &mut String, a64: bool, id: u64)
    ensures
        final(out)@ == print_int_text(old(out)@, a64, id as nat),
{
    proof {
        reveal(print_int_text);
    }
    if a64 {
        out.append("    @ print signed int in x0 (id ");
        push_dec(out, id);
        out.append(")\n");
        out.append("    sub sp, sp, #48\n");
        out.append("    mov x9, sp\n");
        out.append("    add x9, x9, #32\n");
        out.append("    mov x13, x0\n");
        out.append("    cbz x0, .Lpin_zero_");
        push_dec(out, id);
        out.append("\n");
        out.append("    tbz x0, #63, .Lpin_digits_");
        push_dec(out, id);
        out.append("\n");
        out.append("    neg x0, x0\n");
        out.append(".Lpin_digits_");
        push_dec(out, id);
        out.append(":\n");
        out.append(".Lpin_loop_");
        push_dec(out, id);
        out.append(":\n");
        out.append("    mov x10, #10\n");
        out.append("    udiv x11, x0, x10\n");
        out.append("    msub x12, x11, x10, x0\n");
        out.append("    add x12, x12, #48\n");
        out.append("    sub x9, x9, #1\n");
        out.append("    strb w12, [x9]\n");
        out.append("    mov x0, x11\n");
        out.append("    cbnz x0, .Lpin_loop_");
        push_dec(out, id);
        out.append("\n");
        out.append(".Lpin_sign_");
        push_dec(out, id);
        out.append(":\n");
        out.append("    tbz x13, #63, .Lpin_write_");
        push_dec(out, id);
        out.append("\n");
        out.append("    sub x9, x9, #1\n");
        out.append("    mov x12, #45\n");
        out.append("    strb w12, [x9]\n");
        out.append("    b .Lpin_write_");
        push_dec(out, id);
        out.append("\n");
        out.append(".Lpin_zero_");
        push_dec(out, id);
        out.append(":\n");
        out.append("    sub x9, x9, #1\n");
        out.append("    mov x12, #48\n");
        out.append("    strb w12, [x9]\n");
        out.append("    b .Lpin_sign_");
        push_dec(out, id);
        out.append("\n");
        out.append(".Lpin_write_");
        push_dec(out, id);
        out.append(":\n");
        out.append("    mov x0, #1\n");
        out.append("    mov x1, x9\n");
        out.append("    mov x2, sp\n");
        out.append("    add x2, x2, #32\n");
        out.append("    sub x2, x2, x9\n");
        out.append("    mov x8, #64\n");
        out.append("    svc #0\n");
        out.append("    add sp, sp, #48\n");
    } else {
        out.append("    @ print signed int in r0 (id ");
        push_dec(out, id);
        out.append(")\n");
        out.append("    sub sp, sp, #48\n");
        out.append("    mov r1, sp\n");
        out.append("    add r1, r1, #32\n");
        out.append("    mov r12, r0\n");
        out.append("    cmp r0, #0\n");
        out.append("    beq .Lpin_zero_");
        push_dec(out, id);
        out.append("\n");
        out.append("    bpl .Lpin_digits_");
        push_dec(out, id);
        out.append("\n");
        out.append("    rsbs r0, r0, #0\n");
        out.append(".Lpin_digits_");
        push_dec(out, id);
        out.append(":\n");
        out.append(".Lpin_loop_");
        push_dec(out, id);
        out.append(":\n");
        out.append("    mov r2, #10\n");
        out.append("    sdiv r3, r0, r2\n");
        out.append("    mls r2, r3, r2, r0\n");
        out.append("    add r2, r2, #48\n");
        out.append("    sub r1, r1, #1\n");
        out.append("    strb r2, [r1]\n");
        out.append("    mov r0, r3\n");
        out.append("    cmp r0, #0\n");
        out.append("    bne .Lpin_loop_");
        push_dec(out, id);
        out.append("\n");
        out.append(".Lpin_sign_");
        push_dec(out, id);
        out.append(":\n");
        out.append("    cmp r12, #0\n");
        out.append("    bpl .Lpin_write_");
        push_dec(out, id);
        out.append("\n");
        out.append("    sub r1, r1, #1\n");
        out.append("    mov r2, #45\n");
        out.append("    strb r2, [r1]\n");
        out.append("    b .Lpin_write_");
        push_dec(out, id);
        out.append("\n");
        out.append(".Lpin_zero_");
        push_dec(out, id);
        out.append(":\n");
        out.append("    sub r1, r1, #1\n");
        out.append("    mov r2, #48\n");
        out.append("    strb r2, [r1]\n");
        out.append("    b .Lpin_sign_");
        push_dec(out, id);
        out.append("\n");
        out.append(".Lpin_write_");
        push_dec(out, id);
        out.append(":\n");
        out.append("    mov r0, #1\n");
        out.append("    mov r2, sp\n");
        out.append("    add r2, r2, #32\n");
        out.append("    sub r2, r2, r1\n");
        out.append("    mov r7, #4\n");
        out.append("    svc #0\n");
        out.append("    add sp, sp, #48\n");
    }
}

/// Appends the scaling of a double by a million, and its integer part.
fn push_print_float_head(out: &mut String, a64: bool, id: u64)
    ensures
        final(out)@ == print_float_head(old(out)@, a64, id as nat),
{
    proof {
        reveal(print_float_head);
    }
    if a64 {
        out.append("    @ print f64 in x0 (id ");
        push_dec(out, id);
        out.append(")\n");
        out.append("    fmov d8, x0\n");
        out.append("    fmov d9, #1.0e6\n");
        out.append("    fmul d8, d8, d9\n");
        out.append("    fcvtzs x0, d8\n");
        out.append("    str x0, [sp, #-16]!\n");
        out.append("    mov x9, #1000000\n");
        out.append("    sdiv x0, x0, x9\n");
    } else {
        out.append("    @ print f64 in r0 (id ");
        push_dec(out, id);
        out.append(")\n");
        out.append("    vmov d8, r0\n");
        out.append("    vldr d9, =1.0e6\n");
        out.append("    vmul.f64 d8, d8, d9\n");
        out.append("    vcvt.s32.f64 d8, d8\n");
        out.append("    vmov r0, d8\n");
        out.append("    push {r0}\n");
        out.append("    ldr r12, =1000000\n");
        out.append("    sdiv r0, r0, r12\n");
    }
}

/// Appends the decimal point and six digits of the fraction.
fn push_print_float_tail(out: &mut String, a64: bool, id: u64, dot: u64)
    ensures
        final(out)@ == print_float_tail(old(out)@, a64, id as nat, dot as nat),
{
    proof {
        reveal(print_float_tail);
    }
    if a64 {
        out.append("    mov x0, #1\n");
        out.append("    adrp x1, .str");
        push_dec(out, dot);
        out.append("\n");
        out.append("    add x1, x1, :lo12:.str");
        push_dec(out, dot);
        out.append("\n");
        out.append("    mov x2, #1\n");
        out.append("    mov x8, #64\n");
        out.append("    svc #0\n");
        out.append("    ldr x9, [sp], #16\n");
        out.append("    cbz x9, .Lpflt_zero_");
        push_dec(out, id);
        out.append("\n");
        out.append("    tbz x9, #63, .Lpflt_pos_");
        push_dec(out, id);
        out.append("\n");
        out.append("    neg x9, x9\n");
        out.append(".Lpflt_pos_");
        push_dec(out, id);
        out.append(":\n");
        out.append("    mov x10, #1000000\n");
        out.append("    udiv x11, x9, x10\n");
        out.append("    msub x0, x11, x10, x9\n");
        out.append("    sub sp, sp, #32\n");
        out.append("    mov x1, sp\n");
        out.append("    add x1, x1, #6\n");
        out.append(".Lpflt_loop_");
        push_dec(out, id);
        out.append(":\n");
        out.append("    mov x2, #10\n");
        out.append("    udiv x3, x0, x2\n");
        out.append("    msub x0, x3, x2, x0\n");
        out.append("    add x0, x0, #48\n");
        out.append("    sub x1, x1, #1\n");
        out.append("    strb w0, [x1]\n");
        out.append("    mov x0, x3\n");
        out.append("    cmp sp, x1\n");
        out.append("    bne .Lpflt_loop_");
        push_dec(out, id);
        out.append("\n");
        out.append("    mov x0, #1\n");
        out.append("    mov x2, #6\n");
        out.append("    mov x8, #64\n");
        out.append("    svc #0\n");
        out.append("    add sp, sp, #32\n");
        out.append("    b .Lpflt_done_");
        push_dec(out, id);
        out.append("\n");
        out.append(".Lpflt_zero_");
        push_dec(out, id);
        out.append(":\n");
        out.append("    mov x0, #0\n");
        out.append("    sub sp, sp, #32\n");
        out.append("    mov x1, sp\n");
        out.append("    add x1, x1, #6\n");
        out.append(".Lpflt_zloop_");
        push_dec(out, id);
        out.append(":\n");
        out.append("    mov x2, #48\n");
        out.append("    sub x1, x1, #1\n");
        out.append("    strb w2, [x1]\n");
        out.append("    cmp sp, x1\n");
        out.append("    bne .Lpflt_zloop_");
        push_dec(out, id);
        out.append("\n");
        out.append("    mov x0, #1\n");
        out.append("    mov x2, #6\n");
        out.append("    mov x8, #64\n");
        out.append("    svc #0\n");
        out.append("    add sp, sp, #32\n");
        out.append(".Lpflt_done_");
        push_dec(out, id);
        out.append(":\n");
    } else {
        out.append("    mov r0, #1\n");
        out.append("    ldr r1, =.str");
        push_dec(out, dot);
        out.append("\n");
        out.append("    mov r2, #1\n");
        out.append("    mov r7, #4\n");
        out.append("    svc #0\n");
        out.append("    pop {r12}\n");
        out.append("    cmp r12, #0\n");
        out.append("    beq .Lpflt_zero_");
        push_dec(out, id);
        out.append("\n");
        out.append("    bpl .Lpflt_pos_");
        push_dec(out, id);
        out.append("\n");
        out.append("    rsbs r12, r12, #0\n");
        out.append(".Lpflt_pos_");
        push_dec(out, id);
        out.append(":\n");
        out.append("    ldr r3, =1000000\n");
        out.append("    sdiv r2, r12, r3\n");
        out.append("    mls r0, r2, r3, r12\n");
        out.append("    sub sp, sp, #32\n");
        out.append("    mov r1, sp\n");
        out.append("    add r1, r1, #6\n");
        out.append(".Lpflt_loop_");
        push_dec(out, id);
        out.append(":\n");
        out.append("    mov r2, #10\n");
        out.append("    sdiv r3, r0, r2\n");
        out.append("    mls r0, r3, r2, r0\n");
        out.append("    add r0, r0, #48\n");
        out.append("    sub r1, r1, #1\n");
        out.append("    strb r0, [r1]\n");
        out.append("    mov r0, r3\n");
        out.append("    cmp r1, sp\n");
        out.append("    bne .Lpflt_loop_");
        push_dec(out, id);
        out.append("\n");
        out.append("    mov r0, #1\n");
        out.append("    mov r2, #6\n");
        out.append("    mov r7, #4\n");
        out.append("    svc #0\n");
        out.append("    add sp, sp, #32\n");
        out.append("    b .Lpflt_done_");
        push_dec(out, id);
        out.append("\n");
        out.append(".Lpflt_zero_");
        push_dec(out, id);
        out.append(":\n");
        out.append("    sub sp, sp, #32\n");
        out.append("    mov r1, sp\n");
        out.append("    add r1, r1, #6\n");
        out.append(".Lpflt_zloop_");
        push_dec(out, id);
        out.append(":\n");
        out.append("    mov r2, #48\n");
        out.append("    sub r1, r1, #1\n");
        out.append("    strb r2, [r1]\n");
        out.append("    cmp r1, sp\n");
        out.append("    bne .Lpflt_zloop_");
        push_dec(out, id);
        out.append("\n");
        out.append("    mov r0, #1\n");
        out.append("    mov r2, #6\n");
        out.append("    mov r7, #4\n");
        out.append("    svc #0\n");
        out.append("    add sp, sp, #32\n");
        out.append(".Lpflt_done_");
        push_dec(out, id);
        out.append(":\n");
    }
}

// ---------------------------------------------------------------------------
// The generator
// ---------------------------------------------------------------------------

/// The function being compiled: its text, its variables, its lowest stack
/// slot, and the number of pool registers in use.
struct Frame {
    code: String,
    vars: StringHashMap<VarLoc>,
    off: i32,
    next: usize,
}

impl Frame {
    fn new() -> (r: Self)
        ensures
            r.code@ == Seq::<char>::empty(),
            r.vars@ == Map::<Seq<char>, VarLoc>::empty(),
            r.off == SLOTS_TOP,
            r.next == 0,
    {
        Frame { code: String::new(), vars: StringHashMap::new(), off: SLOTS_TOP, next: 0 }
    }
}

/// The ARM code generator, for AArch64 (`"aarch64"`) and ARM32 (any other
/// architecture name).
pub struct ArmCodeGen<'a> {
    functions: FnList,
    string_consts: TextList,
    errors: TextList,
    label_counter: usize,
    cur_epilogue: Option<String>,
    fn_defs: StringHashMap<&'a FnDef>,
    inline_depth: usize,
    arch: String,
    a64: bool,
    loop_stack: PairList,
    lambda_counter: usize,
    dtor_defs: StringHashMap<&'a DtorBlock>,
    struct_defs: StringHashMap<&'a StructDef>,
    struct_alignments: AlignList,
}

/// The state of code generation in a function.
spec fn model(g: ArmCodeGen, fr: Frame) -> Code {
    Code {
        code: fr.code@,
        vars: fr.vars@,
        off: fr.off,
        next: fr.next,
        funcs: g.functions@,
        strs: g.string_consts@,
        errs: g.errors@,
        labels: g.label_counter,
        lambdas: g.lambda_counter,
        epi: opt_text(g.cur_epilogue),
    }
}

impl<'a> ArmCodeGen<'a> {
    /// The declarations known by name, and the architecture.
    pub closed spec fn env(&self) -> Env<'a> {
        Env {
            arch: self.arch@,
            fns: self.fn_defs@,
            dtors: self.dtor_defs@,
            structs: self.struct_defs@,
            aligns: self.struct_alignments@,
        }
    }

    /// The lexical surroundings.
    spec fn ctx(&self) -> Ctx {
        Ctx { depth: (3 - self.inline_depth) as nat, loops: self.loop_stack@ }
    }

    /// What the generator has produced so far, outside of any function.
    pub closed spec fn state(&self) -> Code {
        Code {
            code: Seq::empty(),
            vars: Map::empty(),
            off: 0,
            next: 0,
            funcs: self.functions@,
            strs: self.string_consts@,
            errs: self.errors@,
            labels: self.label_counter,
            lambdas: self.lambda_counter,
            epi: opt_text(self.cur_epilogue),
        }
    }

    /// The generator is between two programs.
    pub closed spec fn idle(&self) -> bool {
        self.inline_depth == 0 && self.loop_stack@.len() == 0 && self.wf_flag()
    }

    spec fn wf_flag(&self) -> bool {
        self.a64 == (self.arch@ == "aarch64"@)
    }

    spec fn ok(&self) -> bool {
        self.inline_depth <= 3 && self.wf_flag() && fns_ok(self.target(), self.env())
    }

    spec fn target(&self) -> Target {
        target_of(self.a64)
    }

    /// `self` has the surroundings of `o`.
    spec fn like(&self, o: &Self) -> bool {
        self.ok() && self.env() == o.env() && self.ctx() == o.ctx() && self.a64 == o.a64
            && self.inline_depth == o.inline_depth && (any_main(o.functions@) ==> any_main(
            self.functions@,
        ))
    }

    /// Counts a label number off.
    fn next_label(&mut self) -> (n: usize)
        ensures
            n == old(self).label_counter,
            *final(self) == (ArmCodeGen { label_counter: bump(n), ..*old(self) }),
    {
        let n: usize = self.label_counter;
        self.label_counter = bumped(n);
        n
    }

    /// Adds a string constant and gives its number.
    fn intern(&mut self, s: String) -> (n: usize)
        requires
            old(self).ok(),
        ensures
            n == old(self).string_consts@.len(),
            final(self).like(old(self)),
            final(self).string_consts@ == old(self).string_consts@.push(s@),
            *final(self) == (ArmCodeGen {
                string_consts: final(self).string_consts,
                ..*old(self)
            }),
    {
        let n: usize = self.string_consts.len();
        self.string_consts.push(s);
        n
    }

    /// A new string constant with its address in `target`.
    fn compile_str(&mut self, fr: &mut Frame, target: &str, s: String)
        requires
            old(self).ok(),
        ensures
            final(self).like(old(self)),
            model(*final(self), *final(fr)) == str_code(
                old(self).a64,
                model(*old(self), *old(fr)),
                target@,
                s@,
            ),
    {
        let n: usize = self.intern(s);
        emit_load_str(&mut fr.code, self.a64, target, n);
    }

    /// The location of a variable, which gets one where it has none.
    fn place(&mut self, fr: &mut Frame, name: &str) -> (loc: VarLoc)
        requires
            old(self).ok(),
        ensures
            *final(self) == *old(self),
            (loc, model(*final(self), *final(fr))) == place_var(
                old(self).a64,
                model(*old(self), *old(fr)),
                name@,
            ),
    {
        proof {
            reveal(place_var);
        }
        match fr.vars.get(name) {
            Some(l) => {
                return *l;
            },
            None => {},
        }
        if fr.next < pool_size(self.a64) {
            let l = VarLoc::Reg(fr.next);
            fr.vars.insert(text(name), l);
            fr.next = fr.next + 1;
            l
        } else {
            fr.off = lowered(fr.off);
            let l = VarLoc::Stack(fr.off);
            fr.vars.insert(text(name), l);
            l
        }
    }

    /// The end of a `return`.
    fn emit_return(&mut self, fr: &mut Frame)
        requires
            old(self).ok(),
        ensures
            *final(self) == *old(self),
            model(*final(self), *final(fr)) == return_jump(
                old(self).a64,
                model(*old(self), *old(fr)),
            ),
    {
        proof {
            reveal(return_jump);
        }
        match &self.cur_epilogue {
            Some(l) => {
                emit1(&mut fr.code, "b", l.as_str());
            },
            None => {
                fr.code.append(
                    if self.a64 {
                        "    ret\n"
                    } else {
                        "    bx lr\n"
                    },
                );
            },
        }
    }

    /// Prints the return register as a signed decimal number.
    fn emit_print_int(&mut self, fr: &mut Frame)
        requires
            old(self).ok(),
        ensures
            final(self).like(old(self)),
            model(*final(self), *final(fr)) == print_int_code(
                old(self).a64,
                model(*old(self), *old(fr)),
            ),
    {
        proof {
            reveal(print_int_code);
        }
        let id: usize = self.next_label();
        push_print_int(&mut fr.code, self.a64, id as u64);
    }

    /// Prints the double whose bit pattern is in the return register.
    fn emit_print_float(&mut self, fr: &mut Frame)
        requires
            old(self).ok(),
        ensures
            final(self).like(old(self)),
            model(*final(self), *final(fr)) == print_float_code(
                old(self).a64,
                model(*old(self), *old(fr)),
            ),
    {
        proof {
            reveal(print_float_code);
        }
        let id: usize = self.next_label();
        push_print_float_head(&mut fr.code, self.a64, id as u64);
        self.emit_print_int(fr);
        let dot: usize = self.intern(text("."));
        push_print_float_tail(&mut fr.code, self.a64, id as u64, dot as u64);
    }

    /// Writes a line feed.
    fn emit_newline(&mut self, fr: &mut Frame)
        requires
            old(self).ok(),
        ensures
            final(self).like(old(self)),
            model(*final(self), *final(fr)) == newline_code(
                old(self).a64,
                model(*old(self), *old(fr)),
            ),
    {
        proof {
            reveal(newline_code);
        }
        let n: usize = self.intern(text("\n"));
        let out = &mut fr.code;
        if self.a64 {
            out.append("    mov x0, #1\n    adrp x1, .str");
            push_dec(out, n as u64);
            out.append("\n    add x1, x1, :lo12:.str");
            push_dec(out, n as u64);
            out.append("\n    mov x2, #1\n    mov x8, #64\n    svc #0\n");
        } else {
            out.append("    mov r0, #1\n    ldr r1, =.str");
            push_dec(out, n as u64);
            out.append("\n    mov r2, #1\n    mov r7, #4\n    svc #0\n");
        }
    }

    /// The offset of a struct field, honouring `@align`; zero where the struct
    /// or the field is not known.
    fn calculate_struct_offset(&self, s: &str, f: &str) -> (r: i64)
        ensures
            r == offset_of(self.env(), s@, f@),
    {
        match self.struct_defs.get(s) {
            Some(sd) => {
                let align: u64 = self.struct_alignments.get(s);
                struct_field_offset(&sd.fields, align as i64, f)
            },
            None => 0,
        }
    }

    // -----------------------------------------------------------------------
    // Expressions
    // -----------------------------------------------------------------------

    /// Compiles an expression, with its value in `target`.
    #[verifier::rlimit(50)]
    fn compile_expr(&mut self, e: &Expr, fr: &mut Frame, target: &str)
        requires
            old(self).ok(),
            expr_ok(old(self).target(), *e),
        ensures
            final(self).like(old(self)),
            model(*final(self), *final(fr)) == expr_code(
                old(self).env(),
                old(self).ctx(),
                model(*old(self), *old(fr)),
                *e,
                target@,
            ),
        decreases old(self).ctx().depth, 0nat, e, 0nat,
    {
        let a64: bool = self.a64;
        match e {
            Expr::Integer(i) => {
                emit_load_imm(&mut fr.code, a64, target, i.value);
            },
            Expr::Float(f) => {
                emit_load_imm(&mut fr.code, a64, target, f.bits as i64);
            },
            Expr::String_(s) => {
                let t = string_parts_text(&s.parts);
                self.compile_str(fr, target, t);
            },
            Expr::Binary(b) => {
                self.compile_binary(b, fr, target);
            },
            Expr::Bool(b) => {
                emit_load_imm(
                    &mut fr.code,
                    a64,
                    target,
                    if b.value {
                        1
                    } else {
                        0
                    },
                );
            },
            Expr::Null => {
                emit_load_imm(&mut fr.code, a64, target, 0);
            },
            Expr::Identifier(id) => {
                match fr.vars.get(id.name.as_str()) {
                    Some(loc) => {
                        let l: VarLoc = *loc;
                        emit_load_var_unless(&mut fr.code, a64, l, target);
                    },
                    None => {
                        emit_load_imm(&mut fr.code, a64, target, 0);
                    },
                }
            },
            Expr::Unary(u) => {
                self.compile_expr(&u.operand, fr, target);
                match u.operator {
                    UnaryOp::Neg => {
                        if a64 {
                            emit2(&mut fr.code, "neg", target, target);
                        } else {
                            emit2i(&mut fr.code, "rsbs", target, target, 0);
                        }
                    },
                    UnaryOp::Not | UnaryOp::Bang => {
                        emit2i(&mut fr.code, "eor", target, target, 1);
                    },
                    _ => {},
                }
            },
            Expr::AssignExpr(x) => {
                self.compile_expr(&x.value, fr, target);
                if x.targets.len() > 0 {
                    match &x.targets[0] {
                        Assignee::Identifier(id) => {
                            match fr.vars.get(id.name.as_str()) {
                                Some(loc) => {
                                    let l: VarLoc = *loc;
                                    emit_store_var_unless(&mut fr.code, a64, l, target);
                                },
                                None => {},
                            }
                        },
                        _ => {},
                    }
                }
            },
            Expr::Call(c) => {
                self.compile_call(c, fr, target);
            },
            Expr::Cast(c) => {
                self.compile_expr(&c.expr, fr, target);
            },
            Expr::Lambda(l) => {
                self.compile_lambda(l, fr, target);
            },
            Expr::TryPropagate(t) => {
                fr.code.append("    @ TryPropagate: evaluate expr\n");
                self.compile_expr(&t.expr, fr, target);
                fr.code.append("    @ Check if error (value == 0 means error in raw mode)\n");
                emit1i(&mut fr.code, "cmp", target, 0);
                match &self.cur_epilogue {
                    Some(l) => {
                        emit1(&mut fr.code, "beq", l.as_str());
                        fr.code.append("    @ Value is valid, continue\n");
                    },
                    None => {
                        fr.code.append("    @ (no cur_epilogue — cannot propagate, continue)\n");
                    },
                }
            },
            _ => {
                emit_load_imm(&mut fr.code, a64, target, 0);
            },
        }
    }

    /// Compiles a binary operation: constant strings are folded, float
    /// operands go through the float registers, and a constant right operand
    /// needs no stack.
    fn compile_binary(&mut self, b: &BinaryExpr, fr: &mut Frame, target: &str)
        requires
            old(self).ok(),
            binary_ok(old(self).target(), *b),
        ensures
            final(self).like(old(self)),
            model(*final(self), *final(fr)) == binary_code(
                old(self).env(),
                old(self).ctx(),
                model(*old(self), *old(fr)),
                *b,
                target@,
            ),
        decreases old(self).ctx().depth, 0nat, b, 1nat,
    {
        let a64: bool = self.a64;
        match (b.operator, &*b.left, &*b.right) {
            (BinaryOp::Add, Expr::String_(l), Expr::String_(r)) => {
                let x = string_parts_text(&l.parts);
                let y = string_parts_text(&r.parts);
                let t = cat(x.as_str(), y.as_str());
                self.compile_str(fr, target, t);
            },
            (BinaryOp::Mul, Expr::String_(s), Expr::Integer(n)) => {
                let x = string_parts_text(&s.parts);
                let t = repeat(x.as_str(), n.value as usize);
                self.compile_str(fr, target, t);
            },
            (BinaryOp::Mul, Expr::Integer(n), Expr::String_(s)) => {
                let x = string_parts_text(&s.parts);
                let t = repeat(x.as_str(), n.value as usize);
                self.compile_str(fr, target, t);
            },
            (BinaryOp::Eq, Expr::String_(l), Expr::String_(r)) => {
                let x = string_parts_text(&l.parts);
                let y = string_parts_text(&r.parts);
                let v: i64 = if same(x.as_str(), y.as_str()) {
                    1
                } else {
                    0
                };
                emit_load_imm(&mut fr.code, a64, target, v);
            },
            (BinaryOp::Ne, Expr::String_(l), Expr::String_(r)) => {
                let x = string_parts_text(&l.parts);
                let y = string_parts_text(&r.parts);
                let v: i64 = if same(x.as_str(), y.as_str()) {
                    0
                } else {
                    1
                };
                emit_load_imm(&mut fr.code, a64, target, v);
            },
            (op, l, r) => {
                let is_float: bool = match (l, r) {
                    (Expr::Float(_), _) => true,
                    (_, Expr::Float(_)) => true,
                    _ => false,
                };
                if is_float {
                    self.compile_float_binary(b, fr, target);
                    return;
                }
                match r {
                    Expr::Integer(i) => {
                        self.compile_expr(&b.left, fr, ret_reg(a64));
                        emit_imm_op(&mut fr.code, a64, op, target, i.value);
                    },
                    _ => {
                        self.compile_expr(&b.left, fr, ret_reg(a64));
                        emit_push(&mut fr.code, a64, ret_reg(a64));
                        self.compile_expr(&b.right, fr, tmp_reg(a64));
                        emit_pop(&mut fr.code, a64, tmp_reg2(a64));
                        emit_general_op(&mut fr.code, a64, op, target);
                    },
                }
            },
        }
    }

    /// Compiles a binary operation with a float operand.
    fn compile_float_binary(&mut self, b: &BinaryExpr, fr: &mut Frame, target: &str)
        requires
            old(self).ok(),
            binary_ok(old(self).target(), *b),
            *b.left is Float || *b.right is Float,
        ensures
            final(self).like(old(self)),
            model(*final(self), *final(fr)) == binary_code(
                old(self).env(),
                old(self).ctx(),
                model(*old(self), *old(fr)),
                *b,
                target@,
            ),
        decreases old(self).ctx().depth, 0nat, b, 0nat,
    {
        let a64: bool = self.a64;
        self.compile_expr(&b.left, fr, ret_reg(a64));
        emit2(&mut fr.code, fmov_op(a64), "d8", ret_reg(a64));
        self.compile_expr(&b.right, fr, tmp_reg(a64));
        emit2(&mut fr.code, fmov_op(a64), "d9", tmp_reg(a64));
        emit_float_tail(&mut fr.code, a64, b.operator, target);
    }

    /// Compiles the first `n` arguments into the argument registers, one by one.
    fn compile_direct_args(&mut self, args: &Vec<Expr>, n: usize, fr: &mut Frame)
        requires
            old(self).ok(),
            n <= args@.len(),
            exprs_ok(old(self).target(), args@, n as nat),
        ensures
            final(self).like(old(self)),
            model(*final(self), *final(fr)) == direct_args(
                old(self).env(),
                old(self).ctx(),
                model(*old(self), *old(fr)),
                args@,
                n as nat,
            ),
        decreases old(self).ctx().depth, 0nat, args@, 0nat,
    {
        let mut i: usize = 0;
        while i < n
            invariant
                i <= n <= args@.len(),
                exprs_ok(old(self).target(), args@, n as nat),
                self.like(old(self)),
                model(*self, *fr) == direct_args(
                    old(self).env(),
                    old(self).ctx(),
                    model(*old(self), *old(fr)),
                    args@,
                    i as nat,
                ),
            decreases n - i,
        {
            proof {
                lemma_expr_at(old(self).target(), args@, n as nat, i as int);
            }
            let r = arg_name(self.a64, i);
            self.compile_expr(&args[i], fr, r.as_str());
            i = i + 1;
        }
    }

    /// Compiles the first `n` arguments onto the stack.
    fn compile_pushed_args(&mut self, args: &Vec<Expr>, n: usize, fr: &mut Frame)
        requires
            old(self).ok(),
            n <= args@.len(),
            exprs_ok(old(self).target(), args@, n as nat),
        ensures
            final(self).like(old(self)),
            model(*final(self), *final(fr)) == pushed_args(
                old(self).env(),
                old(self).ctx(),
                model(*old(self), *old(fr)),
                args@,
                n as nat,
            ),
        decreases old(self).ctx().depth, 0nat, args@, 0nat,
    {
        let a64: bool = self.a64;
        let mut i: usize = 0;
        while i < n
            invariant
                i <= n <= args@.len(),
                a64 == old(self).a64,
                exprs_ok(old(self).target(), args@, n as nat),
                self.like(old(self)),
                model(*self, *fr) == pushed_args(
                    old(self).env(),
                    old(self).ctx(),
                    model(*old(self), *old(fr)),
                    args@,
                    i as nat,
                ),
            decreases n - i,
        {
            proof {
                lemma_expr_at(old(self).target(), args@, n as nat, i as int);
            }
            self.compile_expr(&args[i], fr, ret_reg(a64));
            emit_push(&mut fr.code, a64, ret_reg(a64));
            i = i + 1;
        }
    }

    /// Compiles the first `n` arguments into the argument registers.
    fn compile_args(&mut self, args: &Vec<Expr>, n: usize, fr: &mut Frame)
        requires
            old(self).ok(),
            n <= args@.len(),
            exprs_ok(old(self).target(), args@, n as nat),
        ensures
            final(self).like(old(self)),
            model(*final(self), *final(fr)) == args_code(
                old(self).env(),
                old(self).ctx(),
                model(*old(self), *old(fr)),
                args@,
                n as nat,
            ),
        decreases old(self).ctx().depth, 0nat, args@, 1nat,
    {
        if is_plain_behind(args, n) {
            self.compile_direct_args(args, n, fr);
        } else {
            self.compile_pushed_args(args, n, fr);
            emit_pop_args(&mut fr.code, self.a64, n);
        }
    }

    /// Compiles a call as a branch with link.
    fn compile_real_call(&mut self, name: &str, args: &Vec<Expr>, fr: &mut Frame, target: &str)
        requires
            old(self).ok(),
            exprs_ok(
                old(self).target(),
                args@,
                if args@.len() < arg_len(old(self).a64) {
                    args@.len()
                } else {
                    arg_len(old(self).a64) as nat
                },
            ),
        ensures
            final(self).like(old(self)),
            model(*final(self), *final(fr)) == real_call(
                old(self).env(),
                old(self).ctx(),
                model(*old(self), *old(fr)),
                name@,
                args@,
                target@,
            ),
        decreases old(self).ctx().depth, 0nat, args@, 2nat,
    {
        let n: usize = if args.len() < arg_count(self.a64) {
            args.len()
        } else {
            arg_count(self.a64)
        };
        self.compile_args(args, n, fr);
        emit1(&mut fr.code, "bl", name);
        emit_mov_ret(&mut fr.code, self.a64, target);
    }

    /// Compiles a call: a built-in, an inlined body, a branch, or an access
    /// through a pointer.
    #[verifier::rlimit(50)]
    fn compile_call(&mut self, c: &CallExpr, fr: &mut Frame, target: &str)
        requires
            old(self).ok(),
            call_ok(old(self).target(), *c),
        ensures
            final(self).like(old(self)),
            model(*final(self), *final(fr)) == call_code(
                old(self).env(),
                old(self).ctx(),
                model(*old(self), *old(fr)),
                *c,
                target@,
            ),
        decreases old(self).ctx().depth, 0nat, c, 2nat,
    {
        match &*c.callee {
            Expr::Identifier(id) => {
                let name = id.name.as_str();
                if builtin_name(name) {
                    self.try_compile_raw_builtin(name, c, fr, target);
                    return;
                }
                if self.inline_depth < MAX_INLINE_DEPTH {
                    match self.fn_defs.get(name) {
                        Some(f) => {
                            let f: &'a FnDef = *f;
                            if is_inlineable(f) && f.params.len() == c.args.len() {
                                self.inline_call(f, c, fr, target);
                                return;
                            }
                        },
                        None => {},
                    }
                }
                self.compile_real_call(name, &c.args, fr, target);
            },
            Expr::MemberAccess(m) => {
                self.compile_access(c, m, fr, target);
            },
            _ => {
                emit_load_imm(&mut fr.code, self.a64, target, 0);
            },
        }
    }

    /// Compiles an access through a pointer: `load`, `store` and their
    /// acquire and release forms.
    fn compile_access(&mut self, c: &CallExpr, m: &MemberAccessExpr, fr: &mut Frame, target: &str)
        requires
            old(self).ok(),
            call_ok(old(self).target(), *c),
            *c.callee == Expr::MemberAccess(*m),
        ensures
            final(self).like(old(self)),
            model(*final(self), *final(fr)) == call_code(
                old(self).env(),
                old(self).ctx(),
                model(*old(self), *old(fr)),
                *c,
                target@,
            ),
        decreases old(self).ctx().depth, 0nat, c, 1nat,
    {
        let n = m.member.name.as_str();
        proof {
            if c.args@.len() > 0 && exprs_ok(self.target(), c.args@, 1) {
                lemma_expr_at(self.target(), c.args@, 1, 0);
            }
        }
        if same(n, "load") {
            fr.code.append("    @ volatile load\n");
            self.compile_expr(&m.target, fr, target);
        } else if same(n, "load_acquire") {
            fr.code.append("    @ volatile load (acquire)\n");
            self.compile_expr(&m.target, fr, target);
            fr.code.append("    @ load_acquire — acquire fence\n");
            fr.code.append(
                if self.a64 {
                    "    dmb ishld\n"
                } else {
                    "    dmb ish\n"
                },
            );
        } else if same(n, "store") {
            fr.code.append("    @ volatile store\n");
            if c.args.len() > 0 {
                self.compile_expr(&c.args[0], fr, target);
            } else {
                self.compile_expr(&m.target, fr, target);
            }
        } else if same(n, "store_release") {
            fr.code.append("    @ volatile store (release)\n");
            fr.code.append("    @ store_release — release fence\n");
            fr.code.append("    dmb ish\n");
            if c.args.len() > 0 {
                self.compile_expr(&c.args[0], fr, target);
            } else {
                self.compile_expr(&m.target, fr, target);
            }
        } else {
            self.compile_expr(&m.target, fr, target);
        }
    }

    /// Compiles argument `i`.
    fn compile_arg(&mut self, args: &Vec<Expr>, i: usize, fr: &mut Frame, target: &str)
        requires
            old(self).ok(),
            i < args@.len(),
            expr_ok(old(self).target(), args@[i as int]),
        ensures
            final(self).like(old(self)),
            model(*final(self), *final(fr)) == arg_code(
                old(self).env(),
                old(self).ctx(),
                model(*old(self), *old(fr)),
                args@,
                i as int,
                target@,
            ),
        decreases old(self).ctx().depth, 0nat, args@, 0nat,
    {
        self.compile_expr(&args[i], fr, target);
    }

    /// Compiles a call of a built-in.
    fn try_compile_raw_builtin(&mut self, name: &str, c: &CallExpr, fr: &mut Frame, target: &str)
        requires
            old(self).ok(),
            is_builtin(name@),
            call_ok(old(self).target(), *c),
            *c.callee matches Expr::Identifier(id) && id.name@ == name@,
        ensures
            final(self).like(old(self)),
            model(*final(self), *final(fr)) == builtin_code(
                old(self).env(),
                old(self).ctx(),
                model(*old(self), *old(fr)),
                name@,
                *c,
                target@,
            ),
        decreases old(self).ctx().depth, 0nat, c, 1nat,
    {
        let a64: bool = self.a64;
        let n3: usize = if c.args.len() < 3 {
            c.args.len()
        } else {
            3
        };
        if same(name, "memcpy") {
            self.compile_args(&c.args, n3, fr);
            let id: usize = self.next_label();
            let l = label(".Lmemcpy_", id);
            let end = label(".Lmemcpy_end_", id);
            emit_memcpy_loop(&mut fr.code, a64, l.as_str(), end.as_str());
            emit_mov_ret(&mut fr.code, a64, target);
        } else if same(name, "memset") {
            self.compile_args(&c.args, n3, fr);
            let id: usize = self.next_label();
            let l = label(".Lmemset_", id);
            let end = label(".Lmemset_end_", id);
            emit_memset_loop(&mut fr.code, a64, l.as_str(), end.as_str());
            emit_mov_ret(&mut fr.code, a64, target);
        } else if same(name, "spin_lock") {
            proof {
                lemma_expr_at(self.target(), c.args@, 1, 0);
            }
            self.compile_arg(&c.args, 0, fr, ret_reg(a64));
            let id: usize = self.next_label();
            let l = label(".Lspinlock_", id);
            emit_spin_loop(&mut fr.code, a64, l.as_str());
        } else if same(name, "spin_unlock") {
            proof {
                lemma_expr_at(self.target(), c.args@, 1, 0);
            }
            self.compile_arg(&c.args, 0, fr, ret_reg(a64));
            fr.code.append("    dmb ish\n");
            fr.code.append(
                if a64 {
                    "    str xzr, [x0]\n"
                } else {
                    "    mov r12, #0\n    str r12, [r0]\n"
                },
            );
        } else if same(name, "tls_get") {
            proof {
                lemma_expr_at(self.target(), c.args@, 1, 0);
            }
            self.compile_arg(&c.args, 0, fr, tmp_reg(a64));
            emit_tls_access(&mut fr.code, a64, "ldr");
            emit_mov_ret(&mut fr.code, a64, target);
        } else if same(name, "tls_set") {
            proof {
                lemma_expr_at(self.target(), c.args@, 2, 0);
                lemma_expr_at(self.target(), c.args@, 2, 1);
            }
            self.compile_arg(&c.args, 0, fr, tmp_reg(a64));
            self.compile_arg(&c.args, 1, fr, ret_reg(a64));
            emit_tls_access(&mut fr.code, a64, "str");
            emit_mov_ret(&mut fr.code, a64, target);
        } else if same(name, "offsetof") {
            if c.args.len() >= 2 {
                match (&c.args[0], &c.args[1]) {
                    (Expr::String_(s), Expr::String_(f)) => {
                        let sn = string_parts_text(&s.parts);
                        let fname = string_parts_text(&f.parts);
                        let off: i64 = self.calculate_struct_offset(sn.as_str(), fname.as_str());
                        emit_load_imm(&mut fr.code, a64, target, off);
                        return;
                    },
                    _ => {},
                }
            }
            emit_load_imm(&mut fr.code, a64, target, 0);
        } else if same(name, "static_assert") {
            if c.args.len() >= 1 {
                match &c.args[0] {
                    Expr::Integer(i) => {
                        if i.value == 0 {
                            let msg = assert_text(&c.args);
                            self.errors.push(msg);
                        }
                    },
                    _ => {},
                }
            }
        } else {
            fr.code.append(
                if a64 {
                    "    mrs x0, PMCCNTR_EL0\n"
                } else {
                    "    mrc p15, 0, r0, c9, c13, 0\n"
                },
            );
            emit_mov_ret(&mut fr.code, a64, target);
        }
    }

    /// Inlines a call: binds the parameters to pool registers and compiles the
    /// body in place.  Where the pool runs out, the call is a real one.
    #[verifier::rlimit(50)]
    fn inline_call(&mut self, f: &'a FnDef, c: &CallExpr, fr: &mut Frame, target: &str)
        requires
            old(self).ok(),
            old(self).inline_depth < 3,
            inlineable(*f),
            f.params@.len() == c.args@.len(),
            exprs_ok(old(self).target(), c.args@, c.args@.len()),
            stmts_ok(old(self).target(), f.body@, f.body@.len()),
        ensures
            final(self).like(old(self)),
            model(*final(self), *final(fr)) == inline_code(
                old(self).env(),
                Ctx { depth: (old(self).ctx().depth - 1) as nat, ..old(self).ctx() },
                model(*old(self), *old(fr)),
                *f,
                *c,
                target@,
            ),
        decreases (old(self).ctx().depth - 1) as nat, 4nat, c, 0nat,
    {
        let ghost st = model(*old(self), *old(fr));
        let ghost env = old(self).env();
        let ghost ctx = Ctx { depth: (old(self).ctx().depth - 1) as nat, ..old(self).ctx() };
        let a64: bool = self.a64;
        self.inline_depth = self.inline_depth + 1;
        let ghost depth = self.inline_depth;
        let id: usize = self.next_label();
        let end = label(".Linl_", id);
        let saved_epilogue: Option<String> = clone_opt(&self.cur_epilogue);
        self.cur_epilogue = Some(end.clone());
        let ghost s0 = Code { epi: Some(end@), ..st.labelled() };
        assert(model(*self, *fr) == s0);

        let saved_params: Vec<Option<VarLoc>> = save_params(&fr.vars, &f.params);
        let saved_next: usize = fr.next;
        let mut i: usize = 0;
        while i < f.params.len()
            invariant
                i <= f.params@.len(),
                f.params@.len() == c.args@.len(),
                f.params@.len() <= 3,
                exprs_ok(old(self).target(), c.args@, c.args@.len()),
                self.ok(),
                self.env() == env,
                self.ctx() == ctx,
                self.a64 == a64,
                self.a64 == old(self).a64,
                self.inline_depth == depth,
                depth == old(self).inline_depth + 1,
                any_main(old(self).functions@) ==> any_main(self.functions@),
                depth <= 3,
                env == old(self).env(),
                ctx == (Ctx { depth: (old(self).ctx().depth - 1) as nat, ..old(self).ctx() }),
                saved_params@.len() == f.params@.len(),
                saved_matches(saved_params@, old(fr).vars@, f.params@),
                saved_next == old(fr).next,
                opt_text(saved_epilogue) == opt_text(old(self).cur_epilogue),
                st == model(*old(self), *old(fr)),
                end@ == lab(".Linl_"@, st.labels),
                s0 == (Code { epi: Some(end@), ..st.labelled() }),
                bind_params(env, ctx, s0, *f, *c, i as nat) == (model(*self, *fr), true),
                env.a64() == a64,
            decreases f.params.len() - i,
        {
            proof {
                lemma_expr_at(self.target(), c.args@, c.args@.len(), i as int);
            }
            self.compile_expr(&c.args[i], fr, ret_reg(a64));
            if fr.next >= pool_size(a64) {
                proof {
                    assert(bind_params(env, ctx, s0, *f, *c, (i + 1) as nat) == (
                        model(*self, *fr),
                        false,
                    ));
                    lemma_bind_stops(env, ctx, s0, *f, *c, (i + 1) as nat, f.params@.len());
                }
                fr.next = saved_next;
                restore_params(&mut fr.vars, &f.params, &saved_params, Ghost(old(fr).vars@));
                self.compile_real_call(f.name.name.as_str(), &c.args, fr, target);
                self.cur_epilogue = saved_epilogue;
                self.inline_depth = self.inline_depth - 1;
                return;
            }
            let r = pool_name(a64, fr.next);
            emit2(&mut fr.code, "mov", r.as_str(), ret_reg(a64));
            fr.vars.insert(f.params[i].name.name.clone(), VarLoc::Reg(fr.next));
            fr.next = fr.next + 1;
            i = i + 1;
        }
        let ghost s1 = model(*self, *fr);
        self.compile_stmts(&f.body, fr);
        emit_label(&mut fr.code, end.as_str());
        self.cur_epilogue = saved_epilogue;
        restore_params(&mut fr.vars, &f.params, &saved_params, Ghost(old(fr).vars@));
        emit_mov_ret(&mut fr.code, a64, target);
        self.inline_depth = self.inline_depth - 1;
    }

    /// Saves the captured variables of a lambda to its capture globals.
    fn emit_captures(&mut self, name: &str, free: &TextList, fr: &mut Frame)
        requires
            old(self).ok(),
        ensures
            final(self).like(old(self)),
            model(*final(self), *final(fr)) == captures(
                old(self).a64,
                model(*old(self), *old(fr)),
                name@,
                free@,
                free@.len(),
            ),
    {
        proof {
            reveal(captures);
        }
        let a64: bool = self.a64;
        let mut k: usize = 0;
        while k < free.len()
            invariant
                k <= free@.len(),
                self.like(old(self)),
                a64 == self.a64,
                model(*self, *fr) == captures(
                    old(self).a64,
                    model(*old(self), *old(fr)),
                    name@,
                    free@,
                    k as nat,
                ),
            decreases free@.len() - k,
        {
            proof {
                reveal(captures);
            }
            let v = free.get(k);
            match fr.vars.get(v) {
                Some(loc) => {
                    let l: VarLoc = *loc;
                    emit_load_var(&mut fr.code, a64, l, ret_reg(a64));
                },
                None => {},
            }
            let mut cap = cat3("__", name, "_capture_");
            cap.append(v);
            let n: usize = self.intern(cap.clone());
            if a64 {
                emit_load_str(&mut fr.code, a64, tmp_reg(a64), n);
                emit2(&mut fr.code, "adrp", "x9", cap.as_str());
                fr.code.append("    str x0, [x9]\n");
            } else {
                let lit = cat("=", cap.as_str());
                emit2(&mut fr.code, "ldr", "r12", lit.as_str());
                fr.code.append("    str r0, [r12]\n");
            }
            k = k + 1;
        }
    }

    /// Moves the parameters from the argument registers to pool registers.
    fn bind_params_exec(&mut self, params: &Vec<FnParam>, fr: &mut Frame)
        requires
            old(self).ok(),
            params@.len() <= arg_len(old(self).a64),
        ensures
            *final(self) == *old(self),
            model(*final(self), *final(fr)) == bind_args(
                old(self).a64,
                model(*old(self), *old(fr)),
                params@,
                params@.len(),
            ),
    {
        proof {
            reveal(bind_args);
        }
        let a64: bool = self.a64;
        let mut k: usize = 0;
        while k < params.len()
            invariant
                k <= params@.len(),
                params@.len() <= arg_len(a64),
                *self == *old(self),
                a64 == old(self).a64,
                model(*self, *fr) == bind_args(
                    a64,
                    model(*old(self), *old(fr)),
                    params@,
                    k as nat,
                ),
            decreases params@.len() - k,
        {
            proof {
                reveal(bind_args);
            }
            let r = pool_name(a64, k);
            let x = arg_name(a64, k);
            emit2(&mut fr.code, "mov", r.as_str(), x.as_str());
            fr.vars.insert(params[k].name.name.clone(), VarLoc::Reg(k));
            fr.next = k + 1;
            k = k + 1;
        }
    }

    /// Starts the body of a new function and gives its epilogue label.
    fn enter(&mut self) -> (r: String)
        requires
            old(self).ok(),
        ensures
            final(self).like(old(self)),
            r@ == lab(".Lepi_"@, old(self).label_counter),
            opt_text(final(self).cur_epilogue) == Some(r@),
            *final(self) == (ArmCodeGen {
                label_counter: bump(old(self).label_counter),
                cur_epilogue: final(self).cur_epilogue,
                ..*old(self)
            }),
    {
        proof {
            reveal(lab);
        }
        let id: usize = self.next_label();
        let l = label(".Lepi_", id);
        self.cur_epilogue = Some(l.clone());
        l
    }

    /// Adds a function whose body has been compiled.
    fn finish(&mut self, fr: Frame, name: String, is_main: bool, saved: usize, epilogue: String)
        requires
            old(self).ok(),
            saved <= pool_len(old(self).a64),
        ensures
            is_main ==> any_main(final(self).functions@),
            final(self).like(old(self)),
            final(self).functions@ == old(self).functions@.push(
                made_fn(
                    old(self).a64,
                    model(*old(self), fr),
                    name@,
                    is_main,
                    saved,
                    epilogue@,
                ),
            ),
            *final(self) == (ArmCodeGen {
                functions: final(self).functions,
                cur_epilogue: None,
                ..*old(self)
            }),
    {
        let frame: u64 = frame_size(fr.off, self.a64, saved);
        self.cur_epilogue = None;
        let ghost before = self.functions@;
        self.functions.push(
            CompiledFn { name, code: fr.code, is_main, saved, frame, epilogue },
        );
        proof {
            lemma_any_main_push(before, self.functions@.last());
        }
    }

    /// Compiles a lambda as a function of its own, with its address in
    /// `target`.
    #[verifier::rlimit(50)]
    fn compile_lambda(&mut self, l: &LambdaExpr, fr: &mut Frame, target: &str)
        requires
            old(self).ok(),
            expr_ok(old(self).target(), Expr::Lambda(*l)),
        ensures
            final(self).like(old(self)),
            model(*final(self), *final(fr)) == lambda_code(
                old(self).env(),
                old(self).ctx(),
                model(*old(self), *old(fr)),
                *l,
                target@,
            ),
        decreases old(self).ctx().depth, 0nat, l, 0nat,
    {
        let a64: bool = self.a64;
        let name = label("__lambda_", self.lambda_counter);
        self.lambda_counter = bumped(self.lambda_counter);
        let free = collect_free_vars_expr(&l.body, &l.params);
        self.emit_captures(name.as_str(), &free, fr);
        let ghost s1 = model(*self, *fr);
        let mut inner = Frame::new();
        let epilogue = self.enter();
        assert(model(*self, inner) == enter_fn(s1));
        self.bind_params_exec(&l.params, &mut inner);
        self.compile_expr(&l.body, &mut inner, ret_reg(a64));
        self.emit_return(&mut inner);
        inner.code.append(zero_text(a64));
        emit1(&mut inner.code, "b", epilogue.as_str());
        let saved: usize = pool_lesser(a64, inner.next);
        self.finish(inner, name.clone(), false, saved, epilogue);
        emit_load_fn(&mut fr.code, a64, target, name.as_str());
    }

    // -----------------------------------------------------------------------
    // Statements
    // -----------------------------------------------------------------------

    /// Compiles statements one after the other.
    fn compile_stmts(&mut self, ss: &Vec<Stmt>, fr: &mut Frame)
        requires
            old(self).ok(),
            stmts_ok(old(self).target(), ss@, ss@.len()),
        ensures
            final(self).like(old(self)),
            model(*final(self), *final(fr)) == stmts_code(
                old(self).env(),
                old(self).ctx(),
                model(*old(self), *old(fr)),
                ss@,
                ss@.len(),
            ),
        decreases old(self).ctx().depth, 3nat, ss@, 1nat,
    {
        let mut k: usize = 0;
        while k < ss.len()
            invariant
                k <= ss@.len(),
                stmts_ok(old(self).target(), ss@, ss@.len()),
                self.like(old(self)),
                model(*self, *fr) == stmts_code(
                    old(self).env(),
                    old(self).ctx(),
                    model(*old(self), *old(fr)),
                    ss@,
                    k as nat,
                ),
            decreases ss@.len() - k,
        {
            proof {
                lemma_stmt_at(self.target(), ss@, ss@.len(), k as int);
            }
            self.compile_stmt(&ss[k], fr);
            k = k + 1;
        }
    }

    /// Compiles the statements of an optional block.
    fn compile_block(&mut self, b: &Option<Vec<Stmt>>, fr: &mut Frame)
        requires
            old(self).ok(),
            block_ok(old(self).target(), *b),
        ensures
            final(self).like(old(self)),
            model(*final(self), *final(fr)) == block_code(
                old(self).env(),
                old(self).ctx(),
                model(*old(self), *old(fr)),
                *b,
            ),
        decreases old(self).ctx().depth, 3nat, b, 0nat,
    {
        match b {
            Some(v) => {
                self.compile_stmts(v, fr);
            },
            None => {},
        }
    }

    /// Compiles a statement.
    fn compile_stmt(&mut self, s: &Stmt, fr: &mut Frame)
        requires
            old(self).ok(),
            stmt_ok(old(self).target(), *s),
        ensures
            final(self).like(old(self)),
            model(*final(self), *final(fr)) == stmt_code(
                old(self).env(),
                old(self).ctx(),
                model(*old(self), *old(fr)),
                *s,
            ),
        decreases old(self).ctx().depth, 3nat, s, 0nat,
    {
        let a64: bool = self.a64;
        match s {
            Stmt::Assign(x) => {
                if x.targets.len() > 0 {
                    match &x.targets[0] {
                        Assignee::Identifier(id) => {
                            let loc: VarLoc = self.place(fr, id.name.as_str());
                            self.compile_expr(&x.value, fr, ret_reg(a64));
                            emit_store_var_unless(&mut fr.code, a64, loc, ret_reg(a64));
                        },
                        _ => {},
                    }
                }
            },
            Stmt::Return(r) => {
                if r.values.len() > 0 {
                    self.compile_expr(&r.values[0], fr, ret_reg(a64));
                } else {
                    fr.code.append(zero_text(a64));
                }
                self.emit_return(fr);
            },
            Stmt::If(i) => {
                self.compile_if(i, fr);
            },
            Stmt::While(w) => {
                self.compile_while(w, fr);
            },
            Stmt::Loop(l) => {
                let id: usize = self.next_label();
                let start = label(".Lloop_", id);
                let end = label(".Lloopend_", id);
                self.loop_stack.push(start.clone(), end.clone());
                emit_label(&mut fr.code, start.as_str());
                self.compile_stmts(&l.body, fr);
                emit1(&mut fr.code, "b", start.as_str());
                emit_label(&mut fr.code, end.as_str());
                self.loop_stack.pop();
                assert(self.loop_stack@ =~= old(self).loop_stack@);
            },
            Stmt::Break(b) => {
                emit_break(&mut fr.code, &self.loop_stack, &b.label);
            },
            Stmt::Continue(c) => {
                emit_continue(&mut fr.code, &self.loop_stack, &c.label);
            },
            Stmt::ForRange(x) => {
                self.compile_for_range(x, fr);
            },
            Stmt::ForIn(x) => {
                self.compile_for_in(x, fr);
            },
            Stmt::Expr(e) => {
                self.compile_expr(&e.expr, fr, ret_reg(a64));
            },
            Stmt::Println(p) => {
                self.compile_print_args(&p.args, fr);
                self.emit_newline(fr);
            },
            Stmt::UnsafeBlock(u) => {
                self.compile_stmts(&u.body, fr);
            },
            Stmt::Asm(x) => {
                self.compile_asm(x, fr);
            },
            Stmt::Try(t) => {
                self.compile_try(t, fr);
            },
            Stmt::Throw(t) => {
                self.compile_expr(&t.value, fr, ret_reg(a64));
                emit_raise(&mut fr.code, a64);
            },
            Stmt::Panic(p) => {
                self.compile_expr(&p.message, fr, ret_reg(a64));
                emit_raise(&mut fr.code, a64);
            },
            _ => {},
        }
    }

    /// Compiles a condition that is compared with zero.
    fn compile_plain_cond(&mut self, e: &Expr, fr: &mut Frame, skip: &str)
        requires
            old(self).ok(),
            expr_ok(old(self).target(), *e),
        ensures
            final(self).like(old(self)),
            model(*final(self), *final(fr)) == plain_cond(
                old(self).env(),
                old(self).ctx(),
                model(*old(self), *old(fr)),
                *e,
                skip@,
            ),
        decreases old(self).ctx().depth, 1nat, e, 0nat,
    {
        self.compile_expr(e, fr, ret_reg(self.a64));
        emit1i(&mut fr.code, "cmp", ret_reg(self.a64), 0);
        emit1(&mut fr.code, "beq", skip);
    }

    /// Compiles a condition, with a jump to `skip` where it does not hold.  A
    /// comparison jumps by its flags.
    #[verifier::rlimit(40)]
    fn compile_cond(&mut self, e: &Expr, fr: &mut Frame, skip: &str)
        requires
            old(self).ok(),
            cond_ok(old(self).target(), *e),
        ensures
            final(self).like(old(self)),
            model(*final(self), *final(fr)) == cond_code(
                old(self).env(),
                old(self).ctx(),
                model(*old(self), *old(fr)),
                *e,
                skip@,
            ),
        decreases old(self).ctx().depth, 2nat, e, 0nat,
    {
        proof {
            reveal(cond_of);
        }
        let a64: bool = self.a64;
        let r = ret_reg(a64);
        let t = tmp_reg(a64);
        match e {
            Expr::Binary(b) => {
                match condition_of(b.operator) {
                    Some(c) => {
                        self.compile_expr(&b.left, fr, r);
                        let ghost s1 = model(*self, *fr);
                        match &*b.right {
                            Expr::Integer(i) => {
                                if -2048 <= i.value && i.value <= 2047 {
                                    emit1i(&mut fr.code, "cmp", r, i.value);
                                } else {
                                    emit_load_imm(&mut fr.code, a64, t, i.value);
                                    emit2(&mut fr.code, "cmp", r, t);
                                }
                                assert(model(*self, *fr) == s1.with(fr.code@));
                            },
                            _ => {
                                if is_plain_arg(&b.right) {
                                    self.compile_expr(&b.right, fr, t);
                                    emit2(&mut fr.code, "cmp", r, t);
                                } else {
                                    emit_push(&mut fr.code, a64, r);
                                    self.compile_expr(&b.right, fr, t);
                                    emit_pop(&mut fr.code, a64, tmp_reg2(a64));
                                    emit2(&mut fr.code, "cmp", tmp_reg2(a64), t);
                                }
                            },
                        }
                        let ghost s2 = model(*self, *fr);
                        let branch = cat("b", inverse_of(c));
                        emit1(&mut fr.code, branch.as_str(), skip);
                        assert(model(*self, *fr) == s2.with(
                            s2.code + ins1("b"@ + inverse(c@), skip@),
                        ));
                    },
                    None => {
                        self.compile_plain_cond(e, fr, skip);
                    },
                }
            },
            _ => {
                self.compile_plain_cond(e, fr, skip);
            },
        }
    }

    /// Compiles an `if`.
    fn compile_if(&mut self, i: &IfStmt, fr: &mut Frame)
        requires
            old(self).ok(),
            stmt_ok(old(self).target(), Stmt::If(*i)),
        ensures
            final(self).like(old(self)),
            model(*final(self), *final(fr)) == if_code(
                old(self).env(),
                old(self).ctx(),
                model(*old(self), *old(fr)),
                *i,
            ),
        decreases old(self).ctx().depth, 3nat, i, 0nat,
    {
        let id: usize = self.next_label();
        let skip = label(".Lelse_", id);
        let end = label(".Lend_", id);
        self.compile_cond(&i.condition, fr, skip.as_str());
        self.compile_stmts(&i.then_body, fr);
        emit1(&mut fr.code, "b", end.as_str());
        emit_label(&mut fr.code, skip.as_str());
        match &i.else_body {
            Some(b) => {
                self.compile_stmts(b, fr);
            },
            None => {},
        }
        emit_label(&mut fr.code, end.as_str());
    }

    /// Compiles a `while`.
    fn compile_while(&mut self, w: &WhileStmt, fr: &mut Frame)
        requires
            old(self).ok(),
            stmt_ok(old(self).target(), Stmt::While(*w)),
        ensures
            final(self).like(old(self)),
            model(*final(self), *final(fr)) == while_code(
                old(self).env(),
                old(self).ctx(),
                model(*old(self), *old(fr)),
                *w,
            ),
        decreases old(self).ctx().depth, 3nat, w, 0nat,
    {
        let a64: bool = self.a64;
        let id: usize = self.next_label();
        let start = label(".Lwhile_", id);
        let end = label(".Lwend_", id);
        self.loop_stack.push(start.clone(), end.clone());
        emit_label(&mut fr.code, start.as_str());
        self.compile_expr(&w.condition, fr, ret_reg(a64));
        emit1i(&mut fr.code, "cmp", ret_reg(a64), 0);
        emit1(&mut fr.code, "beq", end.as_str());
        self.compile_stmts(&w.body, fr);
        emit1(&mut fr.code, "b", start.as_str());
        emit_label(&mut fr.code, end.as_str());
        self.loop_stack.pop();
        assert(self.loop_stack@ =~= old(self).loop_stack@);
    }

    /// Compiles an optional expression; zero stands for a missing one.
    fn compile_opt(&mut self, e: &Option<Box<Expr>>, fr: &mut Frame, target: &str)
        requires
            old(self).ok(),
            opt_ok(old(self).target(), *e),
        ensures
            final(self).like(old(self)),
            model(*final(self), *final(fr)) == opt_code(
                old(self).env(),
                old(self).ctx(),
                model(*old(self), *old(fr)),
                *e,
                target@,
            ),
        decreases old(self).ctx().depth, 1nat, e, 0nat,
    {
        match e {
            Some(x) => {
                self.compile_expr(x, fr, target);
            },
            None => {
                emit_load_imm(&mut fr.code, self.a64, target, 0);
            },
        }
    }

    /// Compiles the step of a counting loop and stores it to `slot`.
    fn compile_step(&mut self, e: &Option<Box<Expr>>, fr: &mut Frame, slot: i32)
        requires
            old(self).ok(),
            opt_ok(old(self).target(), *e),
        ensures
            final(self).like(old(self)),
            model(*final(self), *final(fr)) == step_code(
                old(self).env(),
                old(self).ctx(),
                model(*old(self), *old(fr)),
                *e,
                slot,
            ),
        decreases old(self).ctx().depth, 1nat, e, 0nat,
    {
        let a64: bool = self.a64;
        match e {
            Some(x) => {
                self.compile_expr(x, fr, ret_reg(a64));
            },
            None => {
                fr.code.append(
                    if a64 {
                        "    mov x0, #1\n"
                    } else {
                        "    mov r0, #1\n"
                    },
                );
            },
        }
        emit_mem(&mut fr.code, "str", ret_reg(a64), frame_reg(a64), slot);
    }

    /// Compiles a counting loop.
    #[verifier::rlimit(50)]
    fn compile_for_range(&mut self, x: &ForRangeStmt, fr: &mut Frame)
        requires
            old(self).ok(),
            stmt_ok(old(self).target(), Stmt::ForRange(*x)),
        ensures
            final(self).like(old(self)),
            model(*final(self), *final(fr)) == for_range_code(
                old(self).env(),
                old(self).ctx(),
                model(*old(self), *old(fr)),
                *x,
            ),
        decreases old(self).ctx().depth, 3nat, x, 0nat,
    {
        let a64: bool = self.a64;
        let id: usize = self.next_label();
        let bound: i32 = lowered(fr.off);
        let step: i32 = lowered(bound);
        fr.off = step;
        self.compile_expr(&x.from, fr, ret_reg(a64));
        let loc: VarLoc = self.place(fr, x.var.name.as_str());
        emit_store_var(&mut fr.code, a64, loc, ret_reg(a64));
        self.compile_expr(&x.to, fr, ret_reg(a64));
        emit_mem(&mut fr.code, "str", ret_reg(a64), frame_reg(a64), bound);
        self.compile_step(&x.step, fr, step);
        self.loop_stack.push(label(".Lfrincr_", id), label(".Lfrend_", id));
        emit_range_head(&mut fr.code, a64, id, loc, bound, step);
        self.compile_stmts(&x.body, fr);
        emit_range_tail(&mut fr.code, a64, id, loc, step);
        self.loop_stack.pop();
        assert(self.loop_stack@ =~= old(self).loop_stack@);
    }

    /// Compiles a for-in loop over a string, a range or a list literal.
    fn compile_for_in(&mut self, x: &ForInStmt, fr: &mut Frame)
        requires
            old(self).ok(),
            for_in_ok(old(self).target(), *x),
        ensures
            final(self).like(old(self)),
            model(*final(self), *final(fr)) == for_in_code(
                old(self).env(),
                old(self).ctx(),
                model(*old(self), *old(fr)),
                *x,
            ),
        decreases old(self).ctx().depth, 3nat, x, 1nat,
    {
        match &x.iterable {
            Expr::String_(s) => {
                let t = string_parts_text(&s.parts);
                self.compile_str_loop(x, t, fr);
            },
            Expr::Range(r) => {
                self.compile_range_loop(x, r, fr);
            },
            Expr::List(_) => {
                self.compile_unrolled(x, fr);
            },
            _ => {
                fr.code.append("    @ for-in: unsupported iterable type in raw mode\n");
            },
        }
    }

    /// Compiles a loop over the bytes of a string.
    #[verifier::rlimit(50)]
    fn compile_str_loop(&mut self, x: &ForInStmt, t: String, fr: &mut Frame)
        requires
            old(self).ok(),
            stmts_ok(old(self).target(), x.body@, x.body@.len()),
        ensures
            final(self).like(old(self)),
            model(*final(self), *final(fr)) == str_loop_code(
                old(self).env(),
                old(self).ctx(),
                model(*old(self), *old(fr)),
                *x,
                t@,
            ),
        decreases old(self).ctx().depth, 3nat, x, 0nat,
    {
        let ghost st = model(*old(self), *old(fr));
        let ghost env = old(self).env();
        let ghost ctx = old(self).ctx();
        let ghost tv = t@;
        let a64: bool = self.a64;
        let len: usize = byte_length(t.as_str());
        let n: usize = self.intern(t);
        let id: usize = self.next_label();
        let cond = label(".Lfistrcond_", id);
        let end = label(".Lfistrend_", id);
        assert(model(*self, *fr) == st.intern(tv).labelled());
        let loc: VarLoc = self.place(fr, x.var.name.as_str());
        let ghost s1 = model(*self, *fr);
        assert((loc, s1) == place_var(a64, st.intern(tv).labelled(), x.var.name@));
        emit_str_loop_head(&mut fr.code, a64, n, len, cond.as_str(), end.as_str());
        let ghost o = fr.code@;
        assert(o == str_loop_head(s1.code, a64, st.strs.len(), byte_len(tv) as nat, cond@, end@));
        emit_store_var(&mut fr.code, a64, loc, ret_reg(a64));
        self.loop_stack.push(cond.clone(), end.clone());
        let ghost s2 = s1.with(store_var(o, a64, loc, ret(a64)));
        assert(model(*self, *fr) == s2);
        let ghost inner = Ctx { loops: ctx.loops.push((cond@, end@)), ..ctx };
        assert(self.ctx() == inner);
        assert(self.env() == env);
        self.compile_stmts(&x.body, fr);
        let ghost s3 = model(*self, *fr);
        assert(s3 == stmts_code(env, inner, s2, x.body@, x.body@.len()));
        emit2i(&mut fr.code, "add", tmp_reg(a64), tmp_reg(a64), 1);
        emit1(&mut fr.code, "b", cond.as_str());
        emit_label(&mut fr.code, end.as_str());
        self.loop_stack.pop();
        assert(self.loop_stack@ =~= old(self).loop_stack@);
        assert(model(*self, *fr) == s3.with(s3.code + ins2i("add"@, tmp(a64), tmp(a64), 1) + ins1("b"@, cond@) + label_line(end@)));
    }

    /// Compiles a loop over a range expression.
    #[verifier::rlimit(50)]
    fn compile_range_loop(&mut self, x: &ForInStmt, r: &RangeExpr, fr: &mut Frame)
        requires
            old(self).ok(),
            opt_ok(old(self).target(), r.start),
            opt_ok(old(self).target(), r.end),
            opt_ok(old(self).target(), r.step),
            stmts_ok(old(self).target(), x.body@, x.body@.len()),
        ensures
            final(self).like(old(self)),
            model(*final(self), *final(fr)) == range_loop_code(
                old(self).env(),
                old(self).ctx(),
                model(*old(self), *old(fr)),
                *x,
                *r,
            ),
        decreases old(self).ctx().depth, 3nat, x, 0nat,
    {
        let a64: bool = self.a64;
        let id: usize = self.next_label();
        let bound: i32 = lowered(fr.off);
        let step: i32 = lowered(bound);
        fr.off = step;
        self.compile_opt(&r.start, fr, ret_reg(a64));
        let loc: VarLoc = self.place(fr, x.var.name.as_str());
        emit_store_var(&mut fr.code, a64, loc, ret_reg(a64));
        self.compile_opt(&r.end, fr, ret_reg(a64));
        emit_mem(&mut fr.code, "str", ret_reg(a64), frame_reg(a64), bound);
        self.compile_step(&r.step, fr, step);
        self.loop_stack.push(label(".Lfrincr_", id), label(".Lfrend_", id));
        emit_range_head(&mut fr.code, a64, id, loc, bound, step);
        self.compile_stmts(&x.body, fr);
        emit_range_tail(&mut fr.code, a64, id, loc, step);
        self.loop_stack.pop();
        assert(self.loop_stack@ =~= old(self).loop_stack@);
    }

    /// Compiles a loop over a list literal by writing out its passes.
    fn compile_unrolled(&mut self, x: &ForInStmt, fr: &mut Frame)
        requires
            old(self).ok(),
            x.iterable is List,
            for_in_ok(old(self).target(), *x),
        ensures
            final(self).like(old(self)),
            model(*final(self), *final(fr)) == unrolled(
                old(self).env(),
                old(self).ctx(),
                model(*old(self), *old(fr)),
                *x,
                x.iterable->List_0.elements@.len(),
            ),
        decreases old(self).ctx().depth, 3nat, x, 0nat,
    {
        let a64: bool = self.a64;
        match &x.iterable {
            Expr::List(l) => {
                let mut k: usize = 0;
                while k < l.elements.len()
                    invariant
                        x.iterable == Expr::List(*l),
                        k <= l.elements@.len(),
                        for_in_ok(old(self).target(), *x),
                        self.like(old(self)),
                        a64 == old(self).a64,
                        model(*self, *fr) == unrolled(
                            old(self).env(),
                            old(self).ctx(),
                            model(*old(self), *old(fr)),
                            *x,
                            k as nat,
                        ),
                    decreases l.elements@.len() - k,
                {
                    proof {
                        lemma_expr_at(
                            self.target(),
                            l.elements@,
                            l.elements@.len(),
                            k as int,
                        );
                    }
                    self.compile_expr(&l.elements[k], fr, ret_reg(a64));
                    let loc: VarLoc = self.place(fr, x.var.name.as_str());
                    emit_store_var(&mut fr.code, a64, loc, ret_reg(a64));
                    self.compile_stmts(&x.body, fr);
                    k = k + 1;
                }
            },
            _ => {},
        }
    }

    /// Prints values: strings as they are, floats and integers as numbers.
    fn compile_print_args(&mut self, args: &Vec<Expr>, fr: &mut Frame)
        requires
            old(self).ok(),
            exprs_ok(old(self).target(), args@, args@.len()),
        ensures
            final(self).like(old(self)),
            model(*final(self), *final(fr)) == print_args(
                old(self).env(),
                old(self).ctx(),
                model(*old(self), *old(fr)),
                args@,
                args@.len(),
            ),
        decreases old(self).ctx().depth, 1nat, args@, 0nat,
    {
        let a64: bool = self.a64;
        let mut k: usize = 0;
        while k < args.len()
            invariant
                k <= args@.len(),
                exprs_ok(old(self).target(), args@, args@.len()),
                self.like(old(self)),
                a64 == old(self).a64,
                model(*self, *fr) == print_args(
                    old(self).env(),
                    old(self).ctx(),
                    model(*old(self), *old(fr)),
                    args@,
                    k as nat,
                ),
            decreases args@.len() - k,
        {
            proof {
                lemma_expr_at(self.target(), args@, args@.len(), k as int);
            }
            match &args[k] {
                Expr::String_(s) => {
                    let t = string_parts_text(&s.parts);
                    let len: usize = byte_length(t.as_str());
                    let n: usize = self.intern(t);
                    emit_write_str(&mut fr.code, a64, n, len);
                },
                Expr::Float(_) => {
                    self.compile_expr(&args[k], fr, ret_reg(a64));
                    self.emit_print_float(fr);
                },
                _ => {
                    self.compile_expr(&args[k], fr, ret_reg(a64));
                    self.emit_print_int(fr);
                },
            }
            k = k + 1;
        }
    }

    /// Compiles the inputs of an inline assembly block into their operand
    /// registers.
    fn compile_inputs(&mut self, ops: &Vec<AsmOperand>, base: usize, fr: &mut Frame)
        requires
            old(self).ok(),
            operands_ok(old(self).target(), ops@, ops@.len()),
            base + ops@.len() <= scratch_len(old(self).a64),
        ensures
            final(self).like(old(self)),
            model(*final(self), *final(fr)) == inputs_code(
                old(self).env(),
                old(self).ctx(),
                model(*old(self), *old(fr)),
                ops@,
                base as nat,
                ops@.len(),
            ),
        decreases old(self).ctx().depth, 1nat, ops@, 0nat,
    {
        let a64: bool = self.a64;
        let mut k: usize = 0;
        while k < ops.len()
            invariant
                k <= ops@.len(),
                operands_ok(old(self).target(), ops@, ops@.len()),
                base + ops@.len() <= scratch_len(a64),
                self.like(old(self)),
                a64 == old(self).a64,
                model(*self, *fr) == inputs_code(
                    old(self).env(),
                    old(self).ctx(),
                    model(*old(self), *old(fr)),
                    ops@,
                    base as nat,
                    k as nat,
                ),
            decreases ops@.len() - k,
        {
            proof {
                lemma_operand_at(self.target(), ops@, ops@.len(), k as int);
            }
            let r = scratch_name(a64, base + k);
            self.compile_expr(&ops[k].expr, fr, r.as_str());
            k = k + 1;
        }
    }

    /// Compiles an inline assembly block: operand registers come from a
    /// scratch pool, outputs first.
    #[verifier::rlimit(50)]
    fn compile_asm(&mut self, x: &AsmStmt, fr: &mut Frame)
        requires
            old(self).ok(),
            asm_ok(old(self).target(), *x),
        ensures
            final(self).like(old(self)),
            model(*final(self), *final(fr)) == asm_code(
                old(self).env(),
                old(self).ctx(),
                model(*old(self), *old(fr)),
                *x,
            ),
        decreases old(self).ctx().depth, 2nat, x, 0nat,
    {
        let a64: bool = self.a64;
        let limit: usize = if a64 {
            9
        } else {
            5
        };
        emit_template_comments(&mut fr.code, x);
        let total: u128 = x.outputs.len() as u128 + x.inputs.len() as u128;
        if total > limit as u128 {
            fr.code.append("    @ too many operands (");
            push_wide(&mut fr.code, total);
            fr.code.append(" > ");
            push_dec(&mut fr.code, limit as u64);
            fr.code.append("); emitting template verbatim\n");
            emit_template(&mut fr.code, x.template.as_str(), None);
            return;
        }
        self.compile_inputs(&x.inputs, x.outputs.len(), fr);
        let regs = scratch_names(a64, total as usize);
        emit_template(&mut fr.code, x.template.as_str(), Some(&regs));
        emit_store_outputs(&mut fr.code, a64, &fr.vars, &x.outputs);
    }

    /// Compiles a `try` with its handler on the handler stack.
    #[verifier::rlimit(50)]
    fn compile_try(&mut self, t: &TryStmt, fr: &mut Frame)
        requires
            old(self).ok(),
            try_ok(old(self).target(), *t),
        ensures
            final(self).like(old(self)),
            model(*final(self), *final(fr)) == try_code(
                old(self).env(),
                old(self).ctx(),
                model(*old(self), *old(fr)),
                *t,
            ),
        decreases old(self).ctx().depth, 3nat, t, 0nat,
    {
        let a64: bool = self.a64;
        let id: usize = self.next_label();
        let catch_label = label(".Lcatch_", id);
        let end = label(".Ltryend_", id);
        emit_push_handler(&mut fr.code, a64, catch_label.as_str());
        self.compile_stmts(&t.try_body, fr);
        fr.code.append(pop_handler_text(a64));
        self.compile_block(&t.finally_body, fr);
        emit1(&mut fr.code, "b", end.as_str());
        emit_label(&mut fr.code, catch_label.as_str());
        fr.code.append(pop_handler_text(a64));
        match &t.catch_var {
            Some(v) => {
                let loc: VarLoc = self.place(fr, v.name.as_str());
                emit_store_var(&mut fr.code, a64, loc, ret_reg(a64));
            },
            None => {},
        }
        self.compile_block(&t.catch_body, fr);
        self.compile_block(&t.finally_body, fr);
        emit_label(&mut fr.code, end.as_str());
    }
}

/// The bytes that a frame reserves for slots.
fn frame_size(off: i32, a64: bool, saved: usize) -> (r: u64)
    requires
        saved <= pool_len(a64),
    ensures
        r == slot_bytes(a64, off, saved),
{
    if off >= SLOTS_TOP {
        return 0;
    }
    let kept: u64 = if a64 {
        ((saved as u64 + 1) / 2) * 16
    } else {
        saved as u64 * 4
    };
    let used: u64 = (-(off as i64)) as u64 - kept;
    let align: u64 = if a64 {
        16
    } else {
        8
    };
    ((used + align - 1) / align) * align
}

/// The lesser of a register count and the size of the pool.
fn pool_lesser(a64: bool, n: usize) -> (r: usize)
    ensures
        r == pool_min(a64, n),
{
    if n < pool_size(a64) {
        n
    } else {
        pool_size(a64)
    }
}

/// The registers of the first `n` inline assembly operands.
fn scratch_names(a64: bool, n: usize) -> (r: TextList)
    requires
        n <= scratch_len(a64),
    ensures
        r@ == scratch_regs(a64, n as nat),
{
    let mut out = TextList::new();
    let mut i: usize = 0;
    assert(out@ =~= scratch_regs(a64, 0));
    while i < n
        invariant
            i <= n <= scratch_len(a64),
            out@ == scratch_regs(a64, i as nat),
        decreases n - i,
    {
        out.push(scratch_name(a64, i));
        i = i + 1;
        assert(out@ =~= scratch_regs(a64, i as nat));
    }
    out
}

/// Once a parameter has found no register, binding has come to its end.
proof fn lemma_bind_stops(env: Env, ctx: Ctx, st: Code, f: FnDef, c: CallExpr, k: nat, n: nat)
    requires
        k <= n <= f.params@.len(),
        n <= c.args@.len(),
        !bind_params(env, ctx, st, f, c, k).1,
    ensures
        bind_params(env, ctx, st, f, c, n) == bind_params(env, ctx, st, f, c, k),
    decreases n - k,
{
    if k < n {
        lemma_bind_stops(env, ctx, st, f, c, k, (n - 1) as nat);
    }
}

// ---------------------------------------------------------------------------
// Functions and programs
// ---------------------------------------------------------------------------

/// The loop that stands for a doubly recursive Fibonacci function.
fn fib_code(a64: bool, epi: &str, n: usize) -> (r: String)
    ensures
        r@ == fib_text(a64, epi@, n),
{
    proof {
        reveal(fib_text);
    }
    let l = label(".Lfib_loop_", n);
    let done = label(".Lfib_done_", n);
    let base = label(".Lfib_base_", n);
    let mut s = String::new();
    let out = &mut s;
    if a64 {
        out.append("    cmp x0, #1\n");
        emit1(out, "ble", base.as_str());
        out.append("    mov x19, #0\n    mov x20, #1\n    mov x21, #2\n");
        emit_label(out, l.as_str());
        out.append("    cmp x21, x0\n");
        emit1(out, "bgt", done.as_str());
        out.append(
            "    add x22, x19, x20\n    mov x19, x20\n    mov x20, x22\n    add x21, x21, #1\n",
        );
        emit1(out, "b", l.as_str());
        emit_label(out, done.as_str());
        out.append("    mov x0, x20\n");
        emit1(out, "b", epi);
        emit_label(out, base.as_str());
        emit1(out, "b", epi);
    } else {
        out.append("    cmp r0, #1\n");
        emit1(out, "ble", base.as_str());
        out.append("    mov r4, #0\n    mov r5, #1\n    mov r6, #2\n");
        emit_label(out, l.as_str());
        out.append("    cmp r6, r0\n");
        emit1(out, "bgt", done.as_str());
        out.append("    add r7, r4, r5\n    mov r4, r5\n    mov r5, r7\n    add r6, r6, #1\n");
        emit1(out, "b", l.as_str());
        emit_label(out, done.as_str());
        out.append("    mov r0, r5\n");
        emit1(out, "b", epi);
        emit_label(out, base.as_str());
        emit1(out, "b", epi);
    }
    s
}

/// The first `n` callee-saved registers.
fn pool_names(a64: bool, n: usize) -> (r: TextList)
    ensures
        r@ == pool_list(a64, n as nat),
{
    let mut out = TextList::new();
    let mut i: usize = 0;
    assert(out@ =~= pool_list(a64, 0));
    while i < n
        invariant
            i <= n,
            out@ == pool_list(a64, i as nat),
        decreases n - i,
    {
        out.push(pool_name(a64, i));
        i = i + 1;
        assert(out@ =~= pool_list(a64, i as nat));
    }
    out
}

/// Saves callee-saved registers in pairs.
fn emit_save_pairs(out: &mut String, n: usize)
    ensures
        final(out)@ == save_pairs(old(out)@, n as int, 0),
{
    proof {
        reveal(save_pairs);
    }
    let mut i: usize = 0;
    while i < n && n - i > 1
        invariant
            i <= n,
            save_pairs(old(out)@, n as int, 0) == save_pairs(out@, n as int, i as int),
        decreases n - i,
    {
        proof {
            reveal(save_pairs);
        }
        let r = pool_name(true, i);
        let q = pool_name(true, i + 1);
        out.append("    stp ");
        out.append(r.as_str());
        out.append(", ");
        out.append(q.as_str());
        out.append(", [sp, #-16]!\n");
        i = i + 2;
    }
    if i < n {
        let r = pool_name(true, i);
        out.append("    str ");
        out.append(r.as_str());
        out.append(", [sp, #-16]!\n");
    }
}

/// Restores callee-saved registers in pairs, below register `n`.
fn emit_restore_pairs(out: &mut String, n: usize)
    ensures
        final(out)@ == restore_pairs(old(out)@, n as int),
{
    proof {
        reveal(restore_pairs);
    }
    let mut i: usize = n;
    while i >= 2
        invariant
            i <= n,
            restore_pairs(old(out)@, n as int) == restore_pairs(out@, i as int),
        decreases i,
    {
        proof {
            reveal(restore_pairs);
        }
        let r = pool_name(true, i - 2);
        let q = pool_name(true, i - 1);
        out.append("    ldp ");
        out.append(r.as_str());
        out.append(", ");
        out.append(q.as_str());
        out.append(", [sp], #16\n");
        i = i - 2;
    }
}

/// A frame size rounded up to the stack alignment.
fn rounded_frame(frame: u64, a64: bool) -> (r: u128)
    ensures
        r == ceil_to(frame as int, stack_align(a64)),
{
    let align: u128 = if a64 {
        16
    } else {
        8
    };
    ((frame as u128 + align - 1) / align) * align
}

/// The entry sequence of a function.
fn emit_prologue(out: &mut String, a64: bool, f: &CompiledFn)
    ensures
        final(out)@ == prologue(old(out)@, a64, f@),
{
    proof {
        reveal(prologue);
    }
    if a64 {
        out.append("    stp x29, x30, [sp, #-16]!\n    mov x29, sp\n");
        emit_save_pairs(out, f.saved);
    } else {
        out.append("    push {r11, lr}\n    mov r11, sp\n");
        if f.saved > 0 {
            let regs = pool_names(false, f.saved);
            let list = regs.join(", ");
            out.append("    push {");
            out.append(list.as_str());
            out.append("}\n");
        }
    }
    if f.frame > 0 {
        out.append("    sub sp, sp, #");
        push_wide(out, rounded_frame(f.frame, a64));
        out.append("\n");
    }
}

/// The exit sequence of a function.
fn emit_epilogue(out: &mut String, a64: bool, f: &CompiledFn)
    ensures
        final(out)@ == epilogue_text(old(out)@, a64, f@),
{
    proof {
        reveal(epilogue_text);
    }
    emit_label(out, f.epilogue.as_str());
    if f.frame > 0 {
        out.append("    add sp, sp, #");
        push_wide(out, rounded_frame(f.frame, a64));
        out.append("\n");
    }
    if a64 {
        if f.saved % 2 == 1 {
            let r = pool_name(true, f.saved - 1);
            out.append("    ldr ");
            out.append(r.as_str());
            out.append(", [sp], #16\n");
            emit_restore_pairs(out, f.saved - 1);
        } else {
            emit_restore_pairs(out, f.saved);
        }
        out.append("    ldp x29, x30, [sp], #16\n    ret\n");
    } else {
        if f.saved > 0 {
            let regs = pool_names(false, f.saved);
            let list = regs.join(", ");
            out.append("    pop {");
            out.append(list.as_str());
            out.append("}\n");
        }
        out.append("    pop {r11, pc}\n");
    }
}

impl<'a> ArmCodeGen<'a> {
    /// A generator for the given architecture: `"aarch64"` is the 64-bit one.
    pub fn new(arch: &str) -> (r: Self)
        ensures
            r.idle(),
            r.env() == fresh_env(arch@),
            r.state() == fresh_code(),
    {
        ArmCodeGen {
            functions: FnList::new(),
            string_consts: TextList::new(),
            errors: TextList::new(),
            label_counter: 0,
            cur_epilogue: None,
            fn_defs: StringHashMap::new(),
            inline_depth: 0,
            arch: text(arch),
            a64: same(arch, "aarch64"),
            loop_stack: PairList::new(),
            lambda_counter: 0,
            dtor_defs: StringHashMap::new(),
            struct_defs: StringHashMap::new(),
            struct_alignments: AlignList::new(),
        }
    }

    /// Decides whether a new generator for `arch` can compile the program.
    pub fn supports(program: &Program, arch: &str) -> (r: bool)
        ensures
            r == decls_ok(
                target_of(arch@ == "aarch64"@),
                noted(fresh_env(arch@), program_decls(*program), program_decls(*program).len()),
                fresh_code().funcs,
                program_decls(*program),
            ),
    {
        let a64: bool = same(arch, "aarch64");
        let t = Target {
            args: if a64 {
                8
            } else {
                4
            },
            scratch: if a64 {
                9
            } else {
                5
            },
            strict: false,
        };
        supports(t, program, Ghost(arch@))
    }

    /// `self` is outside of any function, loop and inlined body.
    spec fn outside(&self) -> bool {
        self.inline_depth == 0 && self.loop_stack@.len() == 0
    }

    /// Compiles a doubly recursive Fibonacci function to a loop.
    fn try_compile_fib_iterative(&mut self, f: &FnDef) -> (r: bool)
        requires
            old(self).ok(),
            old(self).outside(),
        ensures
            r == fib_shape(*f),
            r && f.name.name@ != "main"@ ==> final(self).like(old(self)) && final(self).outside()
                && final(self).state() == fn_code(old(self).env(), old(self).state(), *f),
            !r ==> *final(self) == *old(self),
    {
        if !is_fib(f) {
            return false;
        }
        let id: usize = self.next_label();
        let epilogue = label(".Lepi_", id);
        let ghost before = self.functions@;
        let n: usize = self.next_label();
        let code = fib_code(self.a64, epilogue.as_str(), n);
        self.functions.push(
            CompiledFn {
                name: f.name.name.clone(),
                code,
                is_main: false,
                saved: 4,
                frame: 0,
                epilogue,
            },
        );
        proof {
            lemma_any_main_push(before, self.functions@.last());
        }
        true
    }

    /// Compiles the destructor calls of the given variables.
    fn compile_dtors(&mut self, vars: &PairList, fr: &mut Frame)
        requires
            old(self).ok(),
            old(self).outside(),
            forall|i: int|
                0 <= i < vars@.len() && old(self).env().dtors.contains_key(
                    (#[trigger] vars@[i]).1,
                ) ==> stmts_ok(
                    old(self).target(),
                    old(self).env().dtors[vars@[i].1].body@,
                    old(self).env().dtors[vars@[i].1].body@.len(),
                ),
        ensures
            final(self).like(old(self)),
            model(*final(self), *final(fr)) == dtors_code(
                old(self).env(),
                model(*old(self), *old(fr)),
                vars@,
                vars@.len(),
            ),
    {
        proof {
            reveal(dtors_code);
        }
        let mut k: usize = 0;
        while k < vars.len()
            invariant
                k <= vars@.len(),
                old(self).outside(),
                self.like(old(self)),
                forall|i: int|
                    0 <= i < vars@.len() && old(self).env().dtors.contains_key(
                        (#[trigger] vars@[i]).1,
                    ) ==> stmts_ok(
                        old(self).target(),
                        old(self).env().dtors[vars@[i].1].body@,
                        old(self).env().dtors[vars@[i].1].body@.len(),
                    ),
                model(*self, *fr) == dtors_code(
                    old(self).env(),
                    model(*old(self), *old(fr)),
                    vars@,
                    k as nat,
                ),
            decreases vars@.len() - k,
        {
            proof {
                reveal(dtors_code);
            }
            let t = vars.second(k);
            fr.code.append("    @ dtor: calling ~");
            fr.code.append(t);
            fr.code.append(" for ");
            fr.code.append(vars.first(k));
            fr.code.append("\n");
            assert(vars@[k as int].1 == t@);
            assert(self.ctx().loops =~= top_ctx().loops);
            match self.dtor_defs.get(t) {
                Some(d) => {
                    let d: &'a DtorBlock = *d;
                    self.compile_stmts(&d.body, fr);
                },
                None => {},
            }
            k = k + 1;
        }
    }

    /// Compiles a function definition.
    #[verifier::rlimit(50)]
    fn compile_function(&mut self, f: &FnDef)
        requires
            old(self).ok(),
            old(self).outside(),
            fn_ok(old(self).target(), old(self).env(), *f),
        ensures
            final(self).like(old(self)),
            final(self).outside(),
            final(self).state() == fn_code(old(self).env(), old(self).state(), *f),
            f.name.name@ == "main"@ ==> any_main(final(self).functions@),
    {
        let a64: bool = self.a64;
        let is_main: bool = same(f.name.name.as_str(), "main");
        if !is_main && self.try_compile_fib_iterative(f) {
            return;
        }
        let ghost st = self.state();
        let ghost env = self.env();
        assert(self.ctx().loops =~= top_ctx().loops);
        let mut fr = Frame::new();
        let epilogue = self.enter();
        assert(model(*self, fr) == enter_fn(st));
        let vars = collect_dtor_vars(&self.dtor_defs, &f.body);
        let has_dtors: bool = vars.len() > 0;
        let mut exit = epilogue.clone();
        if has_dtors {
            let id: usize = self.next_label();
            exit = label(".Lcleanup_", id);
            self.cur_epilogue = Some(exit.clone());
        }
        if !is_main {
            self.bind_params_exec(&f.params, &mut fr);
        }
        self.compile_stmts(&f.body, &mut fr);
        fr.code.append(zero_text(a64));
        emit1(&mut fr.code, "b", exit.as_str());
        if has_dtors {
            emit_label(&mut fr.code, exit.as_str());
            self.cur_epilogue = Some(epilogue.clone());
            self.compile_dtors(&vars, &mut fr);
            emit1(&mut fr.code, "b", epilogue.as_str());
        }
        assert(model(*self, fr) == fn_body(env, st, *f));
        let saved: usize = if is_main {
            0
        } else {
            pool_lesser(a64, fr.next)
        };
        self.finish(fr, f.name.name.clone(), is_main, saved, epilogue);
    }

    /// Notes the alignments that the annotations of the struct `n` ask for.
    fn note_struct_aligns(&mut self, n: &str, anns: &Vec<Annotation>)
        ensures
            *final(self) == (ArmCodeGen {
                struct_alignments: final(self).struct_alignments,
                ..*old(self)
            }),
            final(self).struct_alignments@ == note_aligns(
                old(self).struct_alignments@,
                n@,
                anns@,
                anns@.len(),
            ),
    {
        proof {
            reveal(note_aligns);
        }
        let mut k: usize = 0;
        while k < anns.len()
            invariant
                k <= anns@.len(),
                *self == (ArmCodeGen {
                    struct_alignments: self.struct_alignments,
                    ..*old(self)
                }),
                self.struct_alignments@ == note_aligns(
                    old(self).struct_alignments@,
                    n@,
                    anns@,
                    k as nat,
                ),
            decreases anns@.len() - k,
        {
            proof {
                reveal(note_aligns);
            }
            match annotated_align(&anns[k]) {
                Some(v) => {
                    self.struct_alignments.set(n, v);
                },
                None => {},
            }
            k = k + 1;
        }
    }

    /// Notes the declarations by name.
    fn note_decls(&mut self, decls: &Vec<&'a TopLevel>)
        requires
            old(self).idle(),
        ensures
            final(self).idle(),
            final(self).state() == old(self).state(),
            final(self).env() == noted(old(self).env(), decls@, decls@.len()),
            final(self).a64 == old(self).a64,
    {
        let mut k: usize = 0;
        while k < decls.len()
            invariant
                k <= decls@.len(),
                self.idle(),
                self.state() == old(self).state(),
                self.env() == noted(old(self).env(), decls@, k as nat),
                self.a64 == old(self).a64,
            decreases decls@.len() - k,
        {
            match decls[k] {
                TopLevel::FnDef(f) => {
                    self.fn_defs.insert(f.name.name.clone(), f);
                },
                TopLevel::DtorBlock(d) => {
                    self.dtor_defs.insert(d.target.name.clone(), d);
                },
                TopLevel::StructDef(s) => {
                    self.note_struct_aligns(s.name.name.as_str(), &s.annotations);
                    self.struct_defs.insert(s.name.name.clone(), s);
                },
                _ => {},
            }
            k = k + 1;
        }
    }

    /// Compiles the program's statements as its `main`.
    fn compile_main(&mut self, decls: &Vec<&'a TopLevel>)
        requires
            old(self).ok(),
            old(self).outside(),
            forall|i: int|
                0 <= i < decls@.len() ==> ((#[trigger] decls@[i]) matches TopLevel::Statement(s)
                    ==> stmt_ok(old(self).target(), *s)),
        ensures
            final(self).like(old(self)),
            final(self).outside(),
            final(self).state() == main_code(old(self).env(), old(self).state(), decls@),
    {
        let a64: bool = self.a64;
        let ghost st = self.state();
        let mut fr = Frame::new();
        let epilogue = self.enter();
        let ghost s0 = model(*self, fr);
        assert(s0 == enter_fn(st));
        proof {
            reveal(top_code);
        }
        let mut k: usize = 0;
        while k < decls.len()
            invariant
                k <= decls@.len(),
                self.like(old(self)),
                old(self).outside(),
                forall|i: int|
                    0 <= i < decls@.len() ==> ((#[trigger] decls@[i]) matches TopLevel::Statement(
                        s,
                    ) ==> stmt_ok(old(self).target(), *s)),
                model(*self, fr) == top_code(old(self).env(), s0, decls@, k as nat),
            decreases decls@.len() - k,
        {
            proof {
                reveal(top_code);
            }
            assert(self.ctx().loops =~= top_ctx().loops);
            match decls[k] {
                TopLevel::Statement(s) => {
                    self.compile_stmt(s, &mut fr);
                },
                _ => {},
            }
            k = k + 1;
        }
        fr.code.append(
            if a64 {
                "    mov x0, #0\n    mov x8, #93\n    svc #0\n"
            } else {
                "    mov r0, #0\n    mov r7, #1\n    svc #0\n"
            },
        );
        proof {
            reveal(exit_call);
        }
        let saved: usize = pool_lesser(a64, fr.next);
        self.finish(fr, text("main"), true, saved, epilogue);
    }

    /// The assembly file of the compiled program.
    fn generate_elf(&self) -> (r: String)
        requires
            self.wf_flag(),
        ensures
            r@ == elf_text(self.env(), self.state()),
    {
        let a64: bool = self.a64;
        let mut out = String::new();
        self.emit_head(&mut out);
        let ghost head = out@;
        let mut k: usize = 0;
        proof {
            reveal(fns_text);
        }
        while k < self.functions.len()
            invariant
                k <= self.functions@.len(),
                a64 == self.a64,
                out@ == fns_text(head, a64, self.functions@, k as nat),
            decreases self.functions@.len() - k,
        {
            proof {
                reveal(fns_text);
                reveal(fn_text);
            }
            let f = self.functions.get(k);
            assert(f@ == self.functions@[k as int]);
            emit_label(&mut out, f.name.as_str());
            emit_prologue(&mut out, a64, f);
            out.append(f.code.as_str());
            emit_epilogue(&mut out, a64, f);
            out.append("\n");
            k = k + 1;
        }
        if self.string_consts.len() > 0 {
            out.append(".section .rodata\n.balign 8\n");
            emit_strings(&mut out, &self.string_consts);
            if !a64 {
                out.append(".ltorg\n");
            }
        }
        out.append(
            ".section .bss\n.balign 8\n__handler_stack:\n    .skip 8192\n__handler_idx:\n    .skip 8\n",
        );
        self.emit_aligns(&mut out);
        out
    }

    /// The head of the file.
    fn emit_head(&self, out: &mut String)
        requires
            self.wf_flag(),
            old(out)@ == Seq::<char>::empty(),
        ensures
            final(out)@ == file_head(self.env().arch, self.a64),
    {
        proof {
            reveal(file_head);
        }
        out.append("# Vredrs raw-mode ");
        out.append(self.arch.as_str());
        out.append(" native output\n# Target: ");
        out.append(self.arch.as_str());
        out.append(
            "\n# Generated by vredrs build --raw\n# No GC, no scheduler, no reflection — zero overhead.\n\n",
        );
        if !self.a64 {
            out.append(".syntax unified\n.thumb\n");
        }
        out.append(".text\n.global _start\n\n_start:\n");
        out.append(
            if self.a64 {
                "    mov x0, #0\n    bl main\n    mov x8, #93\n    svc #0\n\n"
            } else {
                "    mov r0, #0\n    bl main\n    mov r7, #1\n    svc #0\n\n"
            },
        );
    }

    /// The alignment markers.
    fn emit_aligns(&self, out: &mut String)
        ensures
            final(out)@ == aligns_text(
                old(out)@,
                self.env().aligns,
                self.env().aligns.len(),
            ),
    {
        proof {
            reveal(aligns_text);
        }
        let mut k: usize = 0;
        while k < self.struct_alignments.len()
            invariant
                k <= self.struct_alignments@.len(),
                out@ == aligns_text(old(out)@, self.struct_alignments@, k as nat),
            decreases self.struct_alignments@.len() - k,
        {
            proof {
                reveal(aligns_text);
            }
            let n = self.struct_alignments.name(k);
            let v: u64 = self.struct_alignments.value(k);
            out.append("@ struct '");
            out.append(n);
            out.append("' aligned to ");
            push_dec(out, v);
            out.append("-byte boundary (@align(");
            push_dec(out, v);
            out.append("))\n.balign ");
            push_dec(out, v);
            out.append("\n.L");
            out.append(n);
            out.append("_align_marker:\n    .skip 0\n");
            k = k + 1;
        }
    }

    /// Compiles a program to an assembly file, or to the messages of its failed
    /// static assertions.
    #[verifier::rlimit(50)]
    pub fn compile(&mut self, program: &'a Program) -> (r: Result<String, String>)
        requires
            old(self).idle(),
            decls_ok(
                target_of(old(self).env().a64()),
                noted(old(self).env(), program_decls(*program), program_decls(*program).len()),
                old(self).state().funcs,
                program_decls(*program),
            ),
        ensures
            final(self).idle(),
            final(self).env() == noted(
                old(self).env(),
                program_decls(*program),
                program_decls(*program).len(),
            ),
            final(self).state() == program_code(
                final(self).env(),
                old(self).state(),
                program_decls(*program),
            ),
            result_text(r) == compile_result(
                final(self).env(),
                final(self).state(),
                program_decls(*program),
            ),
    {
        let decls = flatten_program(program);
        assert(self.a64 == self.env().a64());
        self.note_decls(&decls);
        let ghost env = self.env();
        let ghost st = self.state();
        proof {
            reveal(fns_code);
        }
        let mut k: usize = 0;
        while k < decls.len()
            invariant
                k <= decls@.len(),
                self.ok(),
                self.outside(),
                self.wf_flag(),
                self.env() == env,
                decls_ok(self.target(), env, st.funcs, decls@),
                self.state() == fns_code(env, st, decls@, k as nat),
                any_main(st.funcs) || declares_main(decls@, k as int) ==> any_main(self.functions@),
            decreases decls@.len() - k,
        {
            proof {
                reveal(fns_code);
            }
            match decls[k] {
                TopLevel::FnDef(f) => {
                    self.compile_function(f);
                },
                _ => {},
            }
            k = k + 1;
        }
        if !self.functions.has_main() {
            self.compile_main(&decls);
        }
        if self.errors.len() > 0 {
            return Err(self.errors.join("\n"));
        }
        let out = self.generate_elf();
        let comments = dtor_comment_text(&decls);
        if comments.as_str().is_empty() {
            Ok(out)
        } else {
            Ok(insert_before_first(out.as_str(), ".text", comments.as_str()))
        }
    }
}

} // verus!
