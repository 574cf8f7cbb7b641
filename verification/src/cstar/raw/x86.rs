//! x86_64 assembly backend.
//!
//! Generates Intel-syntax assembly for x86_64 Linux.  A linear-scan allocator
//! gives variables callee-saved registers, and stack slots once those hold live
//! variables; small functions are inlined, doubly recursive Fibonacci functions
//! become loops, and destructors run on every exit of a function that
//! constructs a value of their type.

use vstd::hash_map::StringHashMap;
use vstd::prelude::*;
use crate::ast::{
    Annotation, AsmOperand, AsmStmt, Assignee, BinaryExpr, BinaryOp, CallExpr, DtorBlock, Expr,
    FnDef, FnParam, ForInStmt, ForRangeStmt, Identifier, IfStmt, LambdaExpr, MemberAccessExpr,
    Program, RangeExpr, Stmt, StructDef, TopLevel, TryStmt, UnaryOp, WhileStmt,
};
use crate::cstar::raw::common::{
    bump, bumped, collect_dtor_vars, collect_free_vars_expr, fib_shape, finds_break, finds_continue,
    flatten_program, inlineable, is_fib, is_inlineable, is_plain_arg, is_plain_behind, lowered,
    MAX_INLINE_DEPTH, PairList, program_decls, push_operand_list, string_parts_text,
    struct_field_offset, VarLoc,
};
use crate::cstar::raw::limits::{
    asm_ok, binary_ok, block_ok, call_ok, cond_ok, expr_ok, exprs_ok, for_in_ok, lemma_expr_at,
    lemma_operand_at, lemma_stmt_at, operands_ok, opt_ok, stmt_ok, stmts_ok, Target, try_ok,
};
use crate::cstar::raw::lines::{emit1, emit1n, emit2, emit_label, ins1, label_line};
use crate::cstar::raw::model::{
    AlignList, annotated_align, any_main, assert_text, builtin_name, clone_opt, CompiledFn, Ctx,
    dtor_comment_text, emit_strings, emit_template, Env, FnList, fresh_env, Func, is_builtin, lab,
    label, lemma_any_main_push, note_aligns, noted, offset_of, opt_text, restore_params,
    result_text, save_params, saved_matches, str_name,
};
use crate::cstar::raw::regalloc::{AllocResult, fresh_alloc, RegisterAllocator};
use crate::cstar::raw::x86_model::{
    aligns_text, arg_code, arg_reg, arg_target, args_code, asm_code, binary_code, bind_args,
    bind_params, block_code, break_text, builtin_code, call_code, captures, Code, compile_result,
    cond_code, cond_of, continue_text, direct_args, dtors_code, elf_text, enter_fn, enter_main,
    epilogue_text, expr_code, fib_text, file_head, fn_body, fn_code, fns_code, fns_text,
    for_in_code, for_range_code, fresh_code, general_op, if_code, imm_op, inline_code, inputs_code,
    lambda_code, lea_line, load_slot, load_var, load_var_unless, main_code, memcpy_reg, mov_rax,
    newline_code, opt_code, padded_frame, place_var, plain_cond, pool, pool_index, pool_min,
    pool_reg, pop_args, pop_handler, print_args, print_int_code, print_int_text, program_code,
    prologue, push_handler, pushed_args, raise, range_head, range_loop_code, range_tail, rax_op,
    real_call, restore_regs, return_jump, save_regs, scratch_reg, scratch_regs, set_rax, skip_jump,
    slot_bytes, SLOTS_TOP, spin_loop, step_code, stmt_code, stmts_code, store_outputs, store_slot,
    store_var, store_var_unless, str_code, str_loop_code, str_loop_head, template_comments,
    top_code, top_ctx, try_code, unrolled, while_code, write_str, x86_target,
};
use crate::text::{
    byte_len, byte_length, cat, insert_before_first, push_dec, push_int, push_wide, repeat, same,
    text, TextList,
};
use crate::cstar::raw::support::{declares_main, decls_ok, fn_ok, fns_ok, supports};

verus! {

// ---------------------------------------------------------------------------
// Registers
// ---------------------------------------------------------------------------

/// The argument register `i`.
fn arg_name(i: usize) -> (r: &'static str)
    ensures
        r@ == arg_reg(i as int),
{
    proof {
        reveal(arg_reg);
    }
    if i == 0 {
        "rdi"
    } else if i == 1 {
        "rsi"
    } else if i == 2 {
        "rdx"
    } else if i == 3 {
        "rcx"
    } else if i == 4 {
        "r8"
    } else {
        "r9"
    }
}

/// The argument register `i` of `memcpy`.
fn memcpy_name(i: usize) -> (r: &'static str)
    ensures
        r@ == memcpy_reg(i as int),
{
    proof {
        reveal(memcpy_reg);
    }
    if i == 0 {
        "rdi"
    } else if i == 1 {
        "rsi"
    } else {
        "rcx"
    }
}

/// The callee-saved register `i` of the variable pool.
fn pool_name(i: usize) -> (r: &'static str)
    ensures
        r@ == pool_reg(i as int),
{
    proof {
        reveal(pool_reg);
    }
    if i == 0 {
        "rbx"
    } else if i == 1 {
        "r13"
    } else if i == 2 {
        "r14"
    } else {
        "r15"
    }
}

/// The registers of the variable pool.
fn pool_names() -> (r: Vec<String>)
    ensures
        r@.map_values(|s: String| s@) == pool(),
{
    proof {
        reveal(pool_reg);
    }
    let mut v: Vec<String> = Vec::new();
    v.push(text(pool_name(0)));
    v.push(text(pool_name(1)));
    v.push(text(pool_name(2)));
    v.push(text(pool_name(3)));
    assert(v@.map_values(|s: String| s@) =~= pool());
    v
}

/// The index in the pool of a register name.
fn pool_position(r: &str) -> (i: usize)
    ensures
        i == pool_index(r@),
        i < 4,
{
    proof {
        reveal(pool_index);
    }
    if same(r, pool_name(0)) {
        0
    } else if same(r, pool_name(1)) {
        1
    } else if same(r, pool_name(2)) {
        2
    } else if same(r, pool_name(3)) {
        3
    } else {
        0
    }
}

/// The register of inline assembly operand `i`.
fn scratch_name(i: usize) -> (r: &'static str)
    ensures
        r@ == scratch_reg(i as int),
{
    proof {
        reveal(scratch_reg);
    }
    if i == 0 {
        "rax"
    } else if i == 1 {
        "rcx"
    } else if i == 2 {
        "rdx"
    } else if i == 3 {
        "rsi"
    } else if i == 4 {
        "rdi"
    } else if i == 5 {
        "r8"
    } else if i == 6 {
        "r9"
    } else if i == 7 {
        "r10"
    } else {
        "r11"
    }
}

/// The registers of the first `n` inline assembly operands.
fn scratch_names(n: usize) -> (r: TextList)
    ensures
        r@ == scratch_regs(n as nat),
{
    let mut out = TextList::new();
    let mut i: usize = 0;
    assert(out@ =~= scratch_regs(0));
    while i < n
        invariant
            i <= n,
            out@ == scratch_regs(i as nat),
        decreases n - i,
    {
        out.push(text(scratch_name(i)));
        i = i + 1;
        assert(out@ =~= scratch_regs(i as nat));
    }
    out
}

// ---------------------------------------------------------------------------
// Straight-line pieces
// ---------------------------------------------------------------------------

/// Stores `src` to a stack slot.
fn emit_store_slot(out: &mut String, off: i32, src: &str)
    ensures
        final(out)@ == old(out)@ + store_slot(off as int, src@),
{
    proof {
        reveal(store_slot);
    }
    out.append("    mov qword ptr [rbp");
    push_int(out, off as i64);
    out.append("], ");
    out.append(src);
    out.append("\n");
    assert(out@ =~= old(out)@ + store_slot(off as int, src@));
}

/// Loads a stack slot into `target`.
fn emit_load_slot(out: &mut String, target: &str, off: i32)
    ensures
        final(out)@ == old(out)@ + load_slot(target@, off as int),
{
    proof {
        reveal(load_slot);
    }
    out.append("    mov ");
    out.append(target);
    out.append(", qword ptr [rbp");
    push_int(out, off as i64);
    out.append("]\n");
    assert(out@ =~= old(out)@ + load_slot(target@, off as int));
}

/// Stores `src` to a variable.
fn emit_store_var(out: &mut String, loc: VarLoc, src: &str)
    ensures
        final(out)@ == store_var(old(out)@, loc, src@),
{
    proof {
        reveal(store_var);
    }
    match loc {
        VarLoc::Reg(i) => {
            emit2(out, "mov", pool_name(i), src);
        },
        VarLoc::Stack(off) => {
            emit_store_slot(out, off, src);
        },
    }
}

/// Stores `src` to a variable that is not in `src` already.
fn emit_store_var_unless(out: &mut String, loc: VarLoc, src: &str)
    ensures
        final(out)@ == store_var_unless(old(out)@, loc, src@),
{
    proof {
        reveal(store_var_unless);
        reveal(store_var);
    }
    match loc {
        VarLoc::Reg(i) => {
            if !same(pool_name(i), src) {
                emit2(out, "mov", pool_name(i), src);
            }
        },
        VarLoc::Stack(off) => {
            emit_store_slot(out, off, src);
        },
    }
}

/// Loads a variable into `target`.
fn emit_load_var(out: &mut String, loc: VarLoc, target: &str)
    ensures
        final(out)@ == load_var(old(out)@, loc, target@),
{
    proof {
        reveal(load_var);
    }
    match loc {
        VarLoc::Reg(i) => {
            emit2(out, "mov", target, pool_name(i));
        },
        VarLoc::Stack(off) => {
            emit_load_slot(out, target, off);
        },
    }
}

/// Loads a variable into `target` unless it is there already.
fn emit_load_var_unless(out: &mut String, loc: VarLoc, target: &str)
    ensures
        final(out)@ == load_var_unless(old(out)@, loc, target@),
{
    proof {
        reveal(load_var_unless);
        reveal(load_var);
    }
    match loc {
        VarLoc::Reg(i) => {
            if !same(pool_name(i), target) {
                emit2(out, "mov", target, pool_name(i));
            }
        },
        VarLoc::Stack(off) => {
            emit_load_slot(out, target, off);
        },
    }
}

/// Moves `rax` to `target` unless it is `target`.
fn emit_mov_ret(out: &mut String, target: &str)
    ensures
        final(out)@ == mov_rax(old(out)@, target@),
{
    proof {
        reveal(mov_rax);
    }
    if !same(target, "rax") {
        emit2(out, "mov", target, "rax");
    }
}

/// Loads the address at `l` into `target`.
fn emit_lea(out: &mut String, target: &str, l: &str)
    ensures
        final(out)@ == old(out)@ + lea_line(target@, l@),
{
    proof {
        reveal(lea_line);
    }
    out.append("    lea ");
    out.append(target);
    out.append(", [rip + ");
    out.append(l);
    out.append("]\n");
    assert(out@ =~= old(out)@ + lea_line(target@, l@));
}

/// The suffix of the `set` instruction of a comparison.
fn condition_of(op: BinaryOp) -> (r: Option<&'static str>)
    ensures
        r matches Some(m) ==> cond_of(op) == Some(m@),
        r is None ==> cond_of(op) is None,
{
    proof {
        reveal(cond_of);
    }
    match op {
        BinaryOp::Lt => Some("l"),
        BinaryOp::Gt => Some("g"),
        BinaryOp::Le => Some("le"),
        BinaryOp::Ge => Some("ge"),
        BinaryOp::Eq => Some("e"),
        BinaryOp::Ne => Some("ne"),
        _ => None,
    }
}

/// The jump that is taken where a comparison does not hold.
fn skip_jump_of(op: BinaryOp) -> (r: &'static str)
    ensures
        r@ == skip_jump(op),
{
    proof {
        reveal(skip_jump);
    }
    match op {
        BinaryOp::Lt => "jnl",
        BinaryOp::Gt => "jng",
        BinaryOp::Le => "jnle",
        BinaryOp::Ge => "jnge",
        BinaryOp::Eq => "jne",
        _ => "je",
    }
}

/// The mnemonic of an operation on `rax` and one operand.
fn rax_op_of(op: BinaryOp) -> (r: Option<&'static str>)
    ensures
        r matches Some(m) ==> rax_op(op) == Some(m@),
        r is None ==> rax_op(op) is None,
{
    proof {
        reveal(rax_op);
    }
    match op {
        BinaryOp::Add => Some("add"),
        BinaryOp::Sub => Some("sub"),
        BinaryOp::Mul => Some("imul"),
        BinaryOp::And | BinaryOp::BitAnd => Some("and"),
        BinaryOp::Or | BinaryOp::BitOr => Some("or"),
        BinaryOp::BitXor => Some("xor"),
        _ => None,
    }
}

/// Sets `rax` to zero or one by the condition flags.
fn emit_set_rax(out: &mut String, cond: &str)
    ensures
        final(out)@ == set_rax(old(out)@, cond@),
{
    proof {
        reveal(set_rax);
    }
    out.append("    set");
    out.append(cond);
    out.append(" al\n    movzx rax, al\n");
}

/// The operation `op` of `rax` with a constant.
fn emit_imm_op(out: &mut String, op: BinaryOp, v: i64)
    ensures
        final(out)@ == imm_op(old(out)@, op, v as int),
{
    proof {
        reveal(imm_op);
    }
    match op {
        BinaryOp::Div => {
            emit1n(out, "mov", "rcx", v);
            out.append("    cqo\n    idiv rcx\n");
        },
        BinaryOp::Mod => {
            emit1n(out, "mov", "rcx", v);
            out.append("    cqo\n    idiv rcx\n    mov rax, rdx\n");
        },
        BinaryOp::Shl => {
            emit1n(out, "shl", "rax", v);
        },
        BinaryOp::Shr => {
            emit1n(out, "sar", "rax", v);
        },
        _ => {
            match condition_of(op) {
                Some(c) => {
                    emit1n(out, "cmp", "rax", v);
                    emit_set_rax(out, c);
                },
                None => {
                    match rax_op_of(op) {
                        Some(m) => {
                            emit1n(out, m, "rax", v);
                        },
                        None => {
                            out.append("    mov rax, 0\n");
                        },
                    }
                },
            }
        },
    }
}

/// The operation `op` of `rax` with `rcx`.
fn emit_general_op(out: &mut String, op: BinaryOp)
    ensures
        final(out)@ == general_op(old(out)@, op),
{
    proof {
        reveal(general_op);
    }
    match op {
        BinaryOp::Div => {
            out.append("    cqo\n    idiv rcx\n");
        },
        BinaryOp::Mod => {
            out.append("    cqo\n    idiv rcx\n    mov rax, rdx\n");
        },
        BinaryOp::Shl => {
            out.append("    shl rax, cl\n");
        },
        BinaryOp::Shr => {
            out.append("    sar rax, cl\n");
        },
        _ => {
            match condition_of(op) {
                Some(c) => {
                    out.append("    cmp rax, rcx\n");
                    emit_set_rax(out, c);
                },
                None => {
                    match rax_op_of(op) {
                        Some(m) => {
                            emit2(out, m, "rax", "rcx");
                        },
                        None => {
                            out.append("    mov rax, 0\n");
                        },
                    }
                },
            }
        },
    }
}

/// Appends the inlined routine that prints `rax` as a signed decimal number.
fn push_print_int(out: &mut String, id: u64)
    ensures
        final(out)@ == print_int_text(old(out)@, id as nat),
{
    proof {
        reveal(print_int_text);
    }
    out.append("    # print signed int in rax (id ");
    push_dec(out, id);
    out.append(")\n");
    out.append("    lea rsi, [rsp - 32]\n");
    out.append("    mov r8, rax\n");
    out.append("    test rax, rax\n");
    out.append("    jns .Lpin_digits_");
    push_dec(out, id);
    out.append("\n");
    out.append("    neg rax\n");
    out.append(".Lpin_digits_");
    push_dec(out, id);
    out.append(":\n");
    out.append("    test rax, rax\n");
    out.append("    jnz .Lpin_loop_");
    push_dec(out, id);
    out.append("\n");
    out.append("    dec rsi\n");
    out.append("    mov byte ptr [rsi], 48\n");
    out.append("    jmp .Lpin_sign_");
    push_dec(out, id);
    out.append("\n");
    out.append(".Lpin_loop_");
    push_dec(out, id);
    out.append(":\n");
    out.append("    xor rdx, rdx\n");
    out.append("    mov rcx, 10\n");
    out.append("    div rcx\n");
    out.append("    add dl, 48\n");
    out.append("    dec rsi\n");
    out.append("    mov [rsi], dl\n");
    out.append("    test rax, rax\n");
    out.append("    jnz .Lpin_loop_");
    push_dec(out, id);
    out.append("\n");
    out.append(".Lpin_sign_");
    push_dec(out, id);
    out.append(":\n");
    out.append("    test r8, r8\n");
    out.append("    jns .Lpin_write_");
    push_dec(out, id);
    out.append("\n");
    out.append("    dec rsi\n");
    out.append("    mov byte ptr [rsi], 45\n");
    out.append(".Lpin_write_");
    push_dec(out, id);
    out.append(":\n");
    out.append("    lea rdx, [rsp - 32]\n");
    out.append("    sub rdx, rsi\n");
    out.append("    mov rax, 1\n");
    out.append("    mov rdi, 1\n");
    out.append("    syscall\n");
}

/// Writes string constant `n`, of `len` bytes, to the standard output.
fn emit_write_str(out: &mut String, n: usize, len: usize)
    ensures
        final(out)@ == write_str(old(out)@, n as nat, len as nat),
{
    proof {
        reveal(write_str);
    }
    out.append("    mov rax, 1\n    mov rdi, 1\n    lea rsi, [rip + .str");
    push_dec(out, n as u64);
    out.append("]\n    mov rdx, ");
    push_dec(out, len as u64);
    out.append("\n    syscall\n");
}

/// Takes the innermost exception handler off the handler stack.
fn emit_pop_handler(out: &mut String)
    ensures
        final(out)@ == old(out)@ + pop_handler(),
{
    proof {
        reveal(pop_handler);
    }
    out.append(
        "    mov rcx, [rip + __handler_idx]\n    dec rcx\n    mov [rip + __handler_idx], rcx\n",
    );
}

/// Puts the handler at `l` onto the handler stack.
fn emit_push_handler(out: &mut String, l: &str)
    ensures
        final(out)@ == push_handler(old(out)@, l@),
{
    proof {
        reveal(push_handler);
    }
    emit_lea(out, "rax", l);
    out.append(
        "    mov rcx, [rip + __handler_idx]\n    lea rdx, [rip + __handler_stack]\n    mov [rdx + rcx*8], rax\n    inc rcx\n    mov [rip + __handler_idx], rcx\n",
    );
}

/// Raises the value in `rax`.
fn emit_raise(out: &mut String)
    ensures
        final(out)@ == raise(old(out)@),
{
    proof {
        reveal(raise);
    }
    emit_pop_handler(out);
    out.append("    lea rdx, [rip + __handler_stack]\n    mov r8, [rdx + rcx*8]\n    jmp r8\n");
}

/// The acquire loop of `spin_lock`.
fn emit_spin_loop(out: &mut String, l: &str)
    ensures
        final(out)@ == spin_loop(old(out)@, l@),
{
    proof {
        reveal(spin_loop);
    }
    emit_label(out, l);
    out.append("    mov rcx, 1\n    xchg [rax], rcx\n    test rcx, rcx\n");
    emit1(out, "jnz", l);
    out.append("    mfence\n");
}

/// The initialization of a loop over the bytes of a string, and the head of
/// each pass.
fn emit_str_loop_head(out: &mut String, n: usize, len: usize, cond: &str, end: &str)
    ensures
        final(out)@ == str_loop_head(old(out)@, n as nat, len as nat, cond@, end@),
{
    proof {
        reveal(str_loop_head);
    }
    out.append("    xor r8, r8\n    mov r9, ");
    push_dec(out, len as u64);
    out.append("\n");
    let name = str_name(n);
    emit_lea(out, "r10", name.as_str());
    emit_label(out, cond);
    out.append("    cmp r8, r9\n");
    emit1(out, "jge", end);
    out.append("    movzx rax, byte ptr [r10 + r8]\n");
}

/// The head of a counting loop.
fn emit_range_head(out: &mut String, id: usize, loc: VarLoc, bound: i32, step: i32)
    ensures
        final(out)@ == range_head(old(out)@, id, loc, bound, step),
{
    proof {
        reveal(range_head);
    }
    let end = label(".Lfrend_", id);
    let pos = label(".Lfrpos_", id);
    let skip = label(".Lfrskip_", id);
    let cond = label(".Lfrcond_", id);
    emit_label(out, cond.as_str());
    emit_load_slot(out, "rax", step);
    out.append("    cmp rax, 0\n");
    emit1(out, "jge", pos.as_str());
    emit_load_var(out, loc, "rax");
    emit_load_slot(out, "rcx", bound);
    out.append("    cmp rax, rcx\n");
    emit1(out, "jle", end.as_str());
    emit1(out, "jmp", skip.as_str());
    emit_label(out, pos.as_str());
    emit_load_var(out, loc, "rax");
    emit_load_slot(out, "rcx", bound);
    out.append("    cmp rax, rcx\n");
    emit1(out, "jge", end.as_str());
    emit_label(out, skip.as_str());
}

/// The tail of a counting loop.
fn emit_range_tail(out: &mut String, id: usize, loc: VarLoc, step: i32)
    ensures
        final(out)@ == range_tail(old(out)@, id, loc, step),
{
    proof {
        reveal(range_tail);
    }
    let incr = label(".Lfrincr_", id);
    emit_label(out, incr.as_str());
    match loc {
        VarLoc::Reg(i) => {
            emit_load_slot(out, "rax", step);
            emit2(out, "add", pool_name(i), "rax");
        },
        VarLoc::Stack(off) => {
            emit_load_slot(out, "rax", off);
            emit_load_slot(out, "rcx", step);
            out.append("    add rax, rcx\n");
            emit_store_slot(out, off, "rax");
        },
    }
    let cond = label(".Lfrcond_", id);
    emit1(out, "jmp", cond.as_str());
    let end = label(".Lfrend_", id);
    emit_label(out, end.as_str());
}

/// The comments in front of an inline assembly block.
fn emit_template_comments(out: &mut String, a: &AsmStmt)
    ensures
        final(out)@ == template_comments(old(out)@, *a),
{
    proof {
        reveal(template_comments);
    }
    out.append("    # asm block: ");
    out.append(a.template.as_str());
    out.append("\n");
    if a.outputs.len() > 0 {
        out.append("    # outputs:");
        push_operand_list(out, &a.outputs);
        out.append("\n");
    }
    if a.inputs.len() > 0 {
        out.append("    # inputs:");
        push_operand_list(out, &a.inputs);
        out.append("\n");
    }
}

/// Stores the output registers of an inline assembly block to the output
/// variables.
fn emit_store_outputs(
    out: &mut String,
    vars: &StringHashMap<VarLoc>,
    ops: &Vec<AsmOperand>,
)
    ensures
        final(out)@ == store_outputs(old(out)@, vars@, ops@, ops@.len()),
{
    proof {
        reveal(store_outputs);
    }
    let mut k: usize = 0;
    while k < ops.len()
        invariant
            k <= ops.len(),
            out@ == store_outputs(old(out)@, vars@, ops@, k as nat),
        decreases ops.len() - k,
    {
        proof {
            reveal(store_outputs);
        }
        match &ops[k].expr {
            Expr::Identifier(id) => {
                match vars.get(id.name.as_str()) {
                    Some(loc) => {
                        let r = scratch_name(k);
                        emit_store_var_unless(out, *loc, r);
                    },
                    None => {},
                }
            },
            _ => {
                out.append("    # asm output ");
                push_dec(out, k as u64);
                out.append(": non-identifier output not stored\n");
            },
        }
        k = k + 1;
    }
}

/// The jump of a `break`.
fn emit_break(out: &mut String, loops: &PairList, l: &Option<Identifier>)
    ensures
        final(out)@ == break_text(old(out)@, loops@, *l),
{
    proof {
        reveal(break_text);
    }
    match l {
        Some(id) => {
            let t = cat(".Lbreak_lbl_", id.name.as_str());
            if finds_break(loops, t.as_str(), id.name.as_str()) {
                emit1(out, "jmp", t.as_str());
            } else {
                out.append("    # break '");
                out.append(id.name.as_str());
                out.append("' — label not found (no enclosing loop matches)\n");
            }
        },
        None => {
            if loops.len() > 0 {
                emit1(out, "jmp", loops.second(loops.len() - 1));
            } else {
                out.append("    # break outside loop (no-op)\n");
            }
        },
    }
}

/// The jump of a `continue`.
fn emit_continue(out: &mut String, loops: &PairList, l: &Option<Identifier>)
    ensures
        final(out)@ == continue_text(old(out)@, loops@, *l),
{
    proof {
        reveal(continue_text);
    }
    match l {
        Some(id) => {
            let t = cat(".Lcont_lbl_", id.name.as_str());
            if finds_continue(loops, t.as_str(), id.name.as_str()) {
                emit1(out, "jmp", t.as_str());
            } else {
                out.append("    # continue '");
                out.append(id.name.as_str());
                out.append("' — label not found\n");
            }
        },
        None => {
            if loops.len() > 0 {
                emit1(out, "jmp", loops.first(loops.len() - 1));
            } else {
                out.append("    # continue outside loop (no-op)\n");
            }
        },
    }
}

// ---------------------------------------------------------------------------
// The generator
// ---------------------------------------------------------------------------

/// The function being compiled: its text, its variables, its lowest stack
/// slot, and the number of pool registers in use.
struct Frame {
    code: String,
    vars: StringHashMap<VarLoc>,
    off: i32,
    next: usize,
}

impl Frame {
    fn new() -> (r: Self)
        ensures
            r.code@ == Seq::<char>::empty(),
            r.vars@ == Map::<Seq<char>, VarLoc>::empty(),
            r.off == SLOTS_TOP,
            r.next == 0,
    {
        Frame { code: String::new(), vars: StringHashMap::new(), off: SLOTS_TOP, next: 0 }
    }
}

/// The register of argument `i`.
fn target_name(copy: bool, i: usize) -> (r: &'static str)
    ensures
        r@ == arg_target(copy, i as int),
{
    if copy {
        memcpy_name(i)
    } else {
        arg_name(i)
    }
}

/// Takes `n` arguments from the stack to their registers.
fn emit_pop_args(out: &mut String, copy: bool, n: usize)
    ensures
        final(out)@ == pop_args(old(out)@, copy, n as nat),
{
    proof {
        reveal(pop_args);
    }
    let mut k: usize = n;
    while k > 0
        invariant
            k <= n,
            pop_args(out@, copy, k as nat) == pop_args(old(out)@, copy, n as nat),
        decreases k,
    {
        proof {
            reveal(pop_args);
        }
        emit1(out, "pop", target_name(copy, k - 1));
        k = k - 1;
    }
}

/// The x86_64 code generator.
pub struct X86CodeGen<'a> {
    functions: FnList,
    string_consts: TextList,
    errors: TextList,
    label_counter: usize,
    cur_epilogue: Option<String>,
    fn_defs: StringHashMap<&'a FnDef>,
    inline_depth: usize,
    loop_stack: PairList,
    lambda_counter: usize,
    dtor_defs: StringHashMap<&'a DtorBlock>,
    struct_defs: StringHashMap<&'a StructDef>,
    struct_alignments: AlignList,
    regalloc: RegisterAllocator,
    instr_pos: usize,
}

/// The state of code generation in a function.
spec fn model(g: X86CodeGen, fr: Frame) -> Code {
    Code {
        code: fr.code@,
        vars: fr.vars@,
        off: fr.off,
        next: fr.next,
        funcs: g.functions@,
        strs: g.string_consts@,
        errs: g.errors@,
        labels: g.label_counter,
        lambdas: g.lambda_counter,
        epi: opt_text(g.cur_epilogue),
        alloc: g.regalloc@,
        pos: g.instr_pos,
    }
}

impl<'a> X86CodeGen<'a> {
    /// The declarations known by name.
    pub closed spec fn env(&self) -> Env<'a> {
        Env {
            arch: "x86_64"@,
            fns: self.fn_defs@,
            dtors: self.dtor_defs@,
            structs: self.struct_defs@,
            aligns: self.struct_alignments@,
        }
    }

    /// The lexical surroundings.
    spec fn ctx(&self) -> Ctx {
        Ctx { depth: (3 - self.inline_depth) as nat, loops: self.loop_stack@ }
    }

    /// What the generator has produced so far, outside of any function.
    pub closed spec fn state(&self) -> Code {
        Code {
            code: Seq::empty(),
            vars: Map::empty(),
            off: 0,
            next: 0,
            funcs: self.functions@,
            strs: self.string_consts@,
            errs: self.errors@,
            labels: self.label_counter,
            lambdas: self.lambda_counter,
            epi: opt_text(self.cur_epilogue),
            alloc: self.regalloc@,
            pos: self.instr_pos,
        }
    }

    /// The generator is between two programs.
    pub closed spec fn idle(&self) -> bool {
        self.inline_depth == 0 && self.loop_stack@.len() == 0
    }

    spec fn ok(&self) -> bool {
        self.inline_depth <= 3 && fns_ok(self.target(), self.env())
    }

    spec fn target(&self) -> Target {
        x86_target()
    }

    /// `self` has the surroundings of `o`.
    spec fn like(&self, o: &Self) -> bool {
        self.ok() && self.env() == o.env() && self.ctx() == o.ctx()
            && self.inline_depth == o.inline_depth && (any_main(o.functions@) ==> any_main(
            self.functions@,
        ))
    }

    /// Counts a label number off.
    fn next_label(&mut self) -> (n: usize)
        ensures
            n == old(self).label_counter,
            *final(self) == (X86CodeGen { label_counter: bump(n), ..*old(self) }),
    {
        let n: usize = self.label_counter;
        self.label_counter = bumped(n);
        n
    }

    /// Adds a string constant and gives its number.
    fn intern(&mut self, s: String) -> (n: usize)
        requires
            old(self).ok(),
        ensures
            n == old(self).string_consts@.len(),
            final(self).like(old(self)),
            final(self).string_consts@ == old(self).string_consts@.push(s@),
            *final(self) == (X86CodeGen {
                string_consts: final(self).string_consts,
                ..*old(self)
            }),
    {
        let n: usize = self.string_consts.len();
        self.string_consts.push(s);
        n
    }

    /// A new string constant with its address in `target`.
    fn compile_str(&mut self, fr: &mut Frame, target: &str, s: String)
        requires
            old(self).ok(),
        ensures
            final(self).like(old(self)),
            model(*final(self), *final(fr)) == str_code(
                model(*old(self), *old(fr)),
                target@,
                s@,
            ),
    {
        let n: usize = self.intern(s);
        let name = str_name(n);
        emit_lea(&mut fr.code, target, name.as_str());
    }

    /// The location of a variable. Where it has none, it gets the register that
    /// the allocator gives, or a stack slot.
    fn alloc_var(&mut self, fr: &mut Frame, name: &str) -> (loc: VarLoc)
        requires
            old(self).ok(),
        ensures
            final(self).like(old(self)),
            (loc, model(*final(self), *final(fr))) == place_var(
                model(*old(self), *old(fr)),
                name@,
            ),
    {
        proof {
            reveal(place_var);
        }
        match fr.vars.get(name) {
            Some(l) => {
                return *l;
            },
            None => {},
        }
        self.instr_pos = bumped(self.instr_pos);
        self.regalloc.advance();
        let start: usize = self.instr_pos;
        let end: usize = start.wrapping_add(20);
        match self.regalloc.allocate(name, start, end) {
            AllocResult::Register(r) => {
                let i: usize = pool_position(r.as_str());
                if fr.next <= i {
                    fr.next = i + 1;
                }
                fr.vars.insert(text(name), VarLoc::Reg(i));
                VarLoc::Reg(i)
            },
            AllocResult::Spilled(_) => {
                fr.off = lowered(fr.off);
                fr.vars.insert(text(name), VarLoc::Stack(fr.off));
                VarLoc::Stack(fr.off)
            },
        }
    }

    /// The end of a `return`.
    fn emit_return(&mut self, fr: &mut Frame)
        requires
            old(self).ok(),
        ensures
            *final(self) == *old(self),
            model(*final(self), *final(fr)) == return_jump(
                model(*old(self), *old(fr)),
            ),
    {
        proof {
            reveal(return_jump);
        }
        match &self.cur_epilogue {
            Some(l) => {
                emit1(&mut fr.code, "jmp", l.as_str());
            },
            None => {
                fr.code.append("    ret\n");
            },
        }
    }

    /// Prints `rax` as a signed decimal number.
    fn emit_print_int(&mut self, fr: &mut Frame)
        requires
            old(self).ok(),
        ensures
            final(self).like(old(self)),
            model(*final(self), *final(fr)) == print_int_code(
                model(*old(self), *old(fr)),
            ),
    {
        let id: usize = self.next_label();
        push_print_int(&mut fr.code, id as u64);
    }

    /// Writes a line feed.
    fn emit_newline(&mut self, fr: &mut Frame)
        requires
            old(self).ok(),
        ensures
            final(self).like(old(self)),
            model(*final(self), *final(fr)) == newline_code(
                model(*old(self), *old(fr)),
            ),
    {
        let n: usize = self.intern(text("\n"));
        emit_write_str(&mut fr.code, n, 1);
    }

    /// The offset of a struct field, honouring `@align`; zero where the struct
    /// or the field is not known.
    fn calculate_struct_offset(&self, s: &str, f: &str) -> (r: i64)
        ensures
            r == offset_of(self.env(), s@, f@),
    {
        match self.struct_defs.get(s) {
            Some(sd) => {
                let align: u64 = self.struct_alignments.get(s);
                struct_field_offset(&sd.fields, align as i64, f)
            },
            None => 0,
        }
    }

    // -----------------------------------------------------------------------
    // Expressions
    // -----------------------------------------------------------------------

    /// Compiles an expression, with its value in `target`.
    #[verifier::rlimit(50)]
    fn compile_expr(&mut self, e: &Expr, fr: &mut Frame, target: &str)
        requires
            old(self).ok(),
            expr_ok(old(self).target(), *e),
        ensures
            final(self).like(old(self)),
            model(*final(self), *final(fr)) == expr_code(
                old(self).env(),
                old(self).ctx(),
                model(*old(self), *old(fr)),
                *e,
                target@,
            ),
        decreases old(self).ctx().depth, 0nat, e, 0nat,
    {
        match e {
            Expr::Integer(i) => {
                emit1n(&mut fr.code, "mov", target, i.value);
            },
            Expr::Float(f) => {
                emit1n(&mut fr.code, "mov", target, f.bits as i64);
            },
            Expr::String_(s) => {
                let t = string_parts_text(&s.parts);
                self.compile_str(fr, target, t);
            },
            Expr::Binary(b) => {
                self.compile_binary(b, fr, target);
            },
            Expr::Bool(b) => {
                emit1n(&mut fr.code, "mov", target,
                    if b.value {
                        1
                    } else {
                        0
                    },
                );
            },
            Expr::Null => {
                emit1n(&mut fr.code, "mov", target, 0);
            },
            Expr::Identifier(id) => {
                match fr.vars.get(id.name.as_str()) {
                    Some(loc) => {
                        let l: VarLoc = *loc;
                        emit_load_var_unless(&mut fr.code, l, target);
                    },
                    None => {
                        emit1n(&mut fr.code, "mov", target, 0);
                    },
                }
            },
            Expr::Unary(u) => {
                self.compile_expr(&u.operand, fr, target);
                match u.operator {
                    UnaryOp::Neg => {
                        emit1(&mut fr.code, "neg", target);
                    },
                    UnaryOp::Not | UnaryOp::Bang => {
                        emit1n(&mut fr.code, "xor", target, 1);
                    },
                    _ => {},
                }
            },
            Expr::AssignExpr(x) => {
                self.compile_expr(&x.value, fr, target);
                if x.targets.len() > 0 {
                    match &x.targets[0] {
                        Assignee::Identifier(id) => {
                            match fr.vars.get(id.name.as_str()) {
                                Some(loc) => {
                                    let l: VarLoc = *loc;
                                    emit_store_var_unless(&mut fr.code, l, target);
                                },
                                None => {},
                            }
                        },
                        _ => {},
                    }
                }
            },
            Expr::Call(c) => {
                self.compile_call(c, fr, target);
            },
            Expr::Cast(c) => {
                self.compile_expr(&c.expr, fr, target);
            },
            Expr::Lambda(l) => {
                self.compile_lambda(l, fr, target);
            },
            Expr::TryPropagate(t) => {
                fr.code.append("    # TryPropagate: evaluate expr\n");
                self.compile_expr(&t.expr, fr, target);
                fr.code.append("    # Check if error (value == 0 means error in raw mode)\n");
                emit1n(&mut fr.code, "cmp", target, 0);
                match &self.cur_epilogue {
                    Some(l) => {
                        emit1(&mut fr.code, "je", l.as_str());
                        fr.code.append("    # Value is valid, continue\n");
                    },
                    None => {
                        fr.code.append("    # (no cur_epilogue — cannot propagate, continue)\n");
                    },
                }
            },
            _ => {
                emit1n(&mut fr.code, "mov", target, 0);
            },
        }
    }

    /// Compiles a binary operation: constant strings are folded, and a constant
    /// right operand needs no stack.
    fn compile_binary(&mut self, b: &BinaryExpr, fr: &mut Frame, target: &str)
        requires
            old(self).ok(),
            binary_ok(old(self).target(), *b),
        ensures
            final(self).like(old(self)),
            model(*final(self), *final(fr)) == binary_code(
                old(self).env(),
                old(self).ctx(),
                model(*old(self), *old(fr)),
                *b,
                target@,
            ),
        decreases old(self).ctx().depth, 0nat, b, 1nat,
    {
        match (b.operator, &*b.left, &*b.right) {
            (BinaryOp::Add, Expr::String_(l), Expr::String_(r)) => {
                let x = string_parts_text(&l.parts);
                let y = string_parts_text(&r.parts);
                let t = cat(x.as_str(), y.as_str());
                self.compile_str(fr, target, t);
            },
            (BinaryOp::Mul, Expr::String_(s), Expr::Integer(n)) => {
                let x = string_parts_text(&s.parts);
                let t = repeat(x.as_str(), n.value as usize);
                self.compile_str(fr, target, t);
            },
            (BinaryOp::Mul, Expr::Integer(n), Expr::String_(s)) => {
                let x = string_parts_text(&s.parts);
                let t = repeat(x.as_str(), n.value as usize);
                self.compile_str(fr, target, t);
            },
            (BinaryOp::Eq, Expr::String_(l), Expr::String_(r)) => {
                let x = string_parts_text(&l.parts);
                let y = string_parts_text(&r.parts);
                let v: i64 = if same(x.as_str(), y.as_str()) {
                    1
                } else {
                    0
                };
                emit1n(&mut fr.code, "mov", target, v);
            },
            (BinaryOp::Ne, Expr::String_(l), Expr::String_(r)) => {
                let x = string_parts_text(&l.parts);
                let y = string_parts_text(&r.parts);
                let v: i64 = if same(x.as_str(), y.as_str()) {
                    0
                } else {
                    1
                };
                emit1n(&mut fr.code, "mov", target, v);
            },
            (op, _, r) => {
                match r {
                    Expr::Integer(i) => {
                        self.compile_expr(&b.left, fr, "rax");
                        emit_imm_op(&mut fr.code, op, i.value);
                        emit_mov_ret(&mut fr.code, target);
                    },
                    _ => {
                        self.compile_expr(&b.left, fr, "rax");
                        fr.code.append("    push rax\n");
                        self.compile_expr(&b.right, fr, "rcx");
                        fr.code.append("    pop rax\n");
                        emit_general_op(&mut fr.code, op);
                        emit_mov_ret(&mut fr.code, target);
                    },
                }
            },
        }
    }

    /// Compiles the first `n` arguments into the argument registers, one by one.
    fn compile_direct_args(&mut self, args: &Vec<Expr>, copy: bool, n: usize, fr: &mut Frame)
        requires
            old(self).ok(),
            n <= args@.len(),
            exprs_ok(old(self).target(), args@, n as nat),
        ensures
            final(self).like(old(self)),
            model(*final(self), *final(fr)) == direct_args(
                old(self).env(),
                old(self).ctx(),
                model(*old(self), *old(fr)),
                args@,
                copy,
                n as nat,
            ),
        decreases old(self).ctx().depth, 0nat, args@, 0nat,
    {
        let mut i: usize = 0;
        while i < n
            invariant
                i <= n <= args@.len(),
                exprs_ok(old(self).target(), args@, n as nat),
                self.like(old(self)),
                model(*self, *fr) == direct_args(
                    old(self).env(),
                    old(self).ctx(),
                    model(*old(self), *old(fr)),
                    args@,
                    copy,
                    i as nat,
                ),
            decreases n - i,
        {
            proof {
                lemma_expr_at(old(self).target(), args@, n as nat, i as int);
            }
            let r = target_name(copy, i);
            self.compile_expr(&args[i], fr, r);
            i = i + 1;
        }
    }

    /// Compiles the first `n` arguments onto the stack.
    fn compile_pushed_args(&mut self, args: &Vec<Expr>, n: usize, fr: &mut Frame)
        requires
            old(self).ok(),
            n <= args@.len(),
            exprs_ok(old(self).target(), args@, n as nat),
        ensures
            final(self).like(old(self)),
            model(*final(self), *final(fr)) == pushed_args(
                old(self).env(),
                old(self).ctx(),
                model(*old(self), *old(fr)),
                args@,
                n as nat,
            ),
        decreases old(self).ctx().depth, 0nat, args@, 0nat,
    {
        let mut i: usize = 0;
        while i < n
            invariant
                i <= n <= args@.len(),
                exprs_ok(old(self).target(), args@, n as nat),
                self.like(old(self)),
                model(*self, *fr) == pushed_args(
                    old(self).env(),
                    old(self).ctx(),
                    model(*old(self), *old(fr)),
                    args@,
                    i as nat,
                ),
            decreases n - i,
        {
            proof {
                lemma_expr_at(old(self).target(), args@, n as nat, i as int);
            }
            self.compile_expr(&args[i], fr, "rax");
            fr.code.append("    push rax\n");
            i = i + 1;
        }
    }

    /// Compiles the first `n` arguments into the argument registers; `copy`
    /// selects the registers of `memcpy`.
    fn compile_args(&mut self, args: &Vec<Expr>, copy: bool, n: usize, fr: &mut Frame)
        requires
            old(self).ok(),
            n <= args@.len(),
            exprs_ok(old(self).target(), args@, n as nat),
        ensures
            final(self).like(old(self)),
            model(*final(self), *final(fr)) == args_code(
                old(self).env(),
                old(self).ctx(),
                model(*old(self), *old(fr)),
                args@,
                copy,
                n as nat,
            ),
        decreases old(self).ctx().depth, 0nat, args@, 1nat,
    {
        if is_plain_behind(args, n) {
            self.compile_direct_args(args, copy, n, fr);
        } else {
            self.compile_pushed_args(args, n, fr);
            emit_pop_args(&mut fr.code, copy, n);
        }
    }

    /// Compiles a call as a real one.
    fn compile_real_call(&mut self, name: &str, args: &Vec<Expr>, fr: &mut Frame, target: &str)
        requires
            old(self).ok(),
            exprs_ok(
                old(self).target(),
                args@,
                if args@.len() < 6 {
                    args@.len()
                } else {
                    6
                },
            ),
        ensures
            final(self).like(old(self)),
            model(*final(self), *final(fr)) == real_call(
                old(self).env(),
                old(self).ctx(),
                model(*old(self), *old(fr)),
                name@,
                args@,
                target@,
            ),
        decreases old(self).ctx().depth, 0nat, args@, 2nat,
    {
        let n: usize = if args.len() < 6 {
            args.len()
        } else {
            6
        };
        self.compile_args(args, false, n, fr);
        emit1(&mut fr.code, "call", name);
        emit_mov_ret(&mut fr.code, target);
    }

    /// Compiles a call: a built-in, an inlined body, a branch, or an access
    /// through a pointer.
    #[verifier::rlimit(50)]
    fn compile_call(&mut self, c: &CallExpr, fr: &mut Frame, target: &str)
        requires
            old(self).ok(),
            call_ok(old(self).target(), *c),
        ensures
            final(self).like(old(self)),
            model(*final(self), *final(fr)) == call_code(
                old(self).env(),
                old(self).ctx(),
                model(*old(self), *old(fr)),
                *c,
                target@,
            ),
        decreases old(self).ctx().depth, 0nat, c, 2nat,
    {
        match &*c.callee {
            Expr::Identifier(id) => {
                let name = id.name.as_str();
                if builtin_name(name) {
                    self.try_compile_raw_builtin(name, c, fr, target);
                    return;
                }
                if self.inline_depth < MAX_INLINE_DEPTH {
                    match self.fn_defs.get(name) {
                        Some(f) => {
                            let f: &'a FnDef = *f;
                            if is_inlineable(f) && f.params.len() == c.args.len() {
                                self.inline_call(f, c, fr, target);
                                return;
                            }
                        },
                        None => {},
                    }
                }
                self.compile_real_call(name, &c.args, fr, target);
            },
            Expr::MemberAccess(m) => {
                self.compile_access(c, m, fr, target);
            },
            _ => {
                emit1n(&mut fr.code, "mov", target, 0);
            },
        }
    }

    /// Compiles an access through a pointer: `load`, `store` and their
    /// acquire and release forms.
    fn compile_access(&mut self, c: &CallExpr, m: &MemberAccessExpr, fr: &mut Frame, target: &str)
        requires
            old(self).ok(),
            call_ok(old(self).target(), *c),
            *c.callee == Expr::MemberAccess(*m),
        ensures
            final(self).like(old(self)),
            model(*final(self), *final(fr)) == call_code(
                old(self).env(),
                old(self).ctx(),
                model(*old(self), *old(fr)),
                *c,
                target@,
            ),
        decreases old(self).ctx().depth, 0nat, c, 1nat,
    {
        let n = m.member.name.as_str();
        proof {
            if c.args@.len() > 0 && exprs_ok(self.target(), c.args@, 1) {
                lemma_expr_at(self.target(), c.args@, 1, 0);
            }
        }
        if same(n, "load") {
            fr.code.append("    # volatile load\n");
            self.compile_expr(&m.target, fr, target);
        } else if same(n, "load_acquire") {
            fr.code.append("    # volatile load (acquire)\n");
            self.compile_expr(&m.target, fr, target);
            fr.code.append("    # load_acquire — acquire fence\n    mfence\n");
        } else if same(n, "store") {
            fr.code.append("    # volatile store\n");
            self.compile_arg(&c.args, 0, fr, target);
        } else if same(n, "store_release") {
            fr.code.append(
                "    # volatile store (release)\n    # store_release — release fence\n    mfence\n",
            );
            self.compile_arg(&c.args, 0, fr, target);
        } else {
            self.compile_expr(&m.target, fr, target);
        }
    }

    /// Compiles argument `i`, where there is one.
    fn compile_arg(&mut self, args: &Vec<Expr>, i: usize, fr: &mut Frame, target: &str)
        requires
            old(self).ok(),
            i < args@.len() ==> expr_ok(old(self).target(), args@[i as int]),
        ensures
            final(self).like(old(self)),
            model(*final(self), *final(fr)) == arg_code(
                old(self).env(),
                old(self).ctx(),
                model(*old(self), *old(fr)),
                args@,
                i as int,
                target@,
            ),
        decreases old(self).ctx().depth, 0nat, args@, 0nat,
    {
        if i < args.len() {
            self.compile_expr(&args[i], fr, target);
        }
    }

    /// Compiles a call of a built-in.
    fn try_compile_raw_builtin(&mut self, name: &str, c: &CallExpr, fr: &mut Frame, target: &str)
        requires
            old(self).ok(),
            is_builtin(name@),
            call_ok(old(self).target(), *c),
            *c.callee matches Expr::Identifier(id) && id.name@ == name@,
        ensures
            final(self).like(old(self)),
            model(*final(self), *final(fr)) == builtin_code(
                old(self).env(),
                old(self).ctx(),
                model(*old(self), *old(fr)),
                name@,
                *c,
                target@,
            ),
        decreases old(self).ctx().depth, 0nat, c, 1nat,
    {
        let n3: usize = if c.args.len() < 3 {
            c.args.len()
        } else {
            3
        };
        if same(name, "memcpy") {
            self.compile_args(&c.args, true, n3, fr);
            fr.code.append("    push rax\n    rep movsb\n    pop rax\n");
            if !same(target, "rdi") {
                emit2(&mut fr.code, "mov", target, "rdi");
            }
        } else if same(name, "memset") {
            proof {
                lemma_expr_at(self.target(), c.args@, 3, 0);
                lemma_expr_at(self.target(), c.args@, 3, 1);
                lemma_expr_at(self.target(), c.args@, 3, 2);
            }
            self.compile_arg(&c.args, 0, fr, "rdi");
            self.compile_arg(&c.args, 1, fr, "rax");
            self.compile_arg(&c.args, 2, fr, "rcx");
            fr.code.append("    cld\n    rep stosb\n");
            emit_mov_ret(&mut fr.code, target);
        } else if same(name, "spin_lock") {
            proof {
                lemma_expr_at(self.target(), c.args@, 1, 0);
            }
            self.compile_arg(&c.args, 0, fr, "rax");
            let id: usize = self.next_label();
            let l = label(".Lspinlock_", id);
            emit_spin_loop(&mut fr.code, l.as_str());
        } else if same(name, "spin_unlock") {
            proof {
                lemma_expr_at(self.target(), c.args@, 1, 0);
            }
            self.compile_arg(&c.args, 0, fr, "rax");
            fr.code.append("    mfence\n    mov qword ptr [rax], 0\n");
        } else if same(name, "tls_get") {
            proof {
                lemma_expr_at(self.target(), c.args@, 1, 0);
            }
            self.compile_arg(&c.args, 0, fr, "rcx");
            fr.code.append("    mov rax, [fs:rcx]\n");
            emit_mov_ret(&mut fr.code, target);
        } else if same(name, "tls_set") {
            proof {
                lemma_expr_at(self.target(), c.args@, 2, 0);
                lemma_expr_at(self.target(), c.args@, 2, 1);
            }
            self.compile_arg(&c.args, 0, fr, "rcx");
            self.compile_arg(&c.args, 1, fr, "rax");
            fr.code.append("    mov [fs:rcx], rax\n");
            emit_mov_ret(&mut fr.code, target);
        } else if same(name, "offsetof") {
            if c.args.len() >= 2 {
                match (&c.args[0], &c.args[1]) {
                    (Expr::String_(s), Expr::String_(f)) => {
                        let sn = string_parts_text(&s.parts);
                        let fname = string_parts_text(&f.parts);
                        let off: i64 = self.calculate_struct_offset(sn.as_str(), fname.as_str());
                        emit1n(&mut fr.code, "mov", target, off);
                        return;
                    },
                    _ => {},
                }
            }
            emit1n(&mut fr.code, "mov", target, 0);
        } else if same(name, "static_assert") {
            if c.args.len() >= 1 {
                match &c.args[0] {
                    Expr::Integer(i) => {
                        if i.value == 0 {
                            let msg = assert_text(&c.args);
                            self.errors.push(msg);
                        }
                    },
                    _ => {},
                }
            }
        } else {
            fr.code.append("    rdtsc\n    shl rdx, 32\n    or rax, rdx\n");
            emit_mov_ret(&mut fr.code, target);
        }
    }

    /// Inlines a call: binds the parameters to pool registers and compiles the
    /// body in place.  Where the pool runs out, the call is a real one.
    #[verifier::rlimit(50)]
    fn inline_call(&mut self, f: &'a FnDef, c: &CallExpr, fr: &mut Frame, target: &str)
        requires
            old(self).ok(),
            old(self).inline_depth < 3,
            inlineable(*f),
            f.params@.len() == c.args@.len(),
            exprs_ok(old(self).target(), c.args@, c.args@.len()),
            stmts_ok(old(self).target(), f.body@, f.body@.len()),
        ensures
            final(self).like(old(self)),
            model(*final(self), *final(fr)) == inline_code(
                old(self).env(),
                Ctx { depth: (old(self).ctx().depth - 1) as nat, ..old(self).ctx() },
                model(*old(self), *old(fr)),
                *f,
                *c,
                target@,
            ),
        decreases (old(self).ctx().depth - 1) as nat, 4nat, c, 0nat,
    {
        let ghost st = model(*old(self), *old(fr));
        let ghost env = old(self).env();
        let ghost ctx = Ctx { depth: (old(self).ctx().depth - 1) as nat, ..old(self).ctx() };
        self.inline_depth = self.inline_depth + 1;
        let ghost depth = self.inline_depth;
        let id: usize = self.next_label();
        let end = label(".Linl_", id);
        let saved_epilogue: Option<String> = clone_opt(&self.cur_epilogue);
        self.cur_epilogue = Some(end.clone());
        let ghost s0 = Code { epi: Some(end@), ..st.labelled() };
        assert(model(*self, *fr) == s0);

        let saved_params: Vec<Option<VarLoc>> = save_params(&fr.vars, &f.params);
        let saved_next: usize = fr.next;
        let mut i: usize = 0;
        while i < f.params.len()
            invariant
                i <= f.params@.len(),
                f.params@.len() == c.args@.len(),
                f.params@.len() <= 3,
                exprs_ok(old(self).target(), c.args@, c.args@.len()),
                self.ok(),
                self.env() == env,
                self.ctx() == ctx,
                self.inline_depth == depth,
                depth == old(self).inline_depth + 1,
                any_main(old(self).functions@) ==> any_main(self.functions@),
                depth <= 3,
                env == old(self).env(),
                ctx == (Ctx { depth: (old(self).ctx().depth - 1) as nat, ..old(self).ctx() }),
                saved_params@.len() == f.params@.len(),
                saved_matches(saved_params@, old(fr).vars@, f.params@),
                saved_next == old(fr).next,
                opt_text(saved_epilogue) == opt_text(old(self).cur_epilogue),
                st == model(*old(self), *old(fr)),
                end@ == lab(".Linl_"@, st.labels),
                s0 == (Code { epi: Some(end@), ..st.labelled() }),
                bind_params(env, ctx, s0, *f, *c, i as nat) == (model(*self, *fr), true),
            decreases f.params.len() - i,
        {
            proof {
                lemma_expr_at(self.target(), c.args@, c.args@.len(), i as int);
            }
            self.compile_expr(&c.args[i], fr, "rax");
            if fr.next >= 4 {
                proof {
                    assert(bind_params(env, ctx, s0, *f, *c, (i + 1) as nat) == (
                        model(*self, *fr),
                        false,
                    ));
                    lemma_bind_stops(env, ctx, s0, *f, *c, (i + 1) as nat, f.params@.len());
                }
                fr.next = saved_next;
                restore_params(&mut fr.vars, &f.params, &saved_params, Ghost(old(fr).vars@));
                self.compile_real_call(f.name.name.as_str(), &c.args, fr, target);
                self.cur_epilogue = saved_epilogue;
                self.inline_depth = self.inline_depth - 1;
                return;
            }
            emit2(&mut fr.code, "mov", pool_name(fr.next), "rax");
            fr.vars.insert(f.params[i].name.name.clone(), VarLoc::Reg(fr.next));
            fr.next = fr.next + 1;
            i = i + 1;
        }
        let ghost s1 = model(*self, *fr);
        self.compile_stmts(&f.body, fr);
        emit_label(&mut fr.code, end.as_str());
        self.cur_epilogue = saved_epilogue;
        restore_params(&mut fr.vars, &f.params, &saved_params, Ghost(old(fr).vars@));
        emit_mov_ret(&mut fr.code, target);
        self.inline_depth = self.inline_depth - 1;
    }

    /// Saves the captured variables of a lambda to its capture globals.
    fn emit_captures(&mut self, name: &str, free: &TextList, fr: &mut Frame)
        requires
            old(self).ok(),
        ensures
            final(self).like(old(self)),
            model(*final(self), *final(fr)) == captures(
                model(*old(self), *old(fr)),
                name@,
                free@,
                free@.len(),
            ),
    {
        proof {
            reveal(captures);
        }
        let mut k: usize = 0;
        while k < free.len()
            invariant
                k <= free@.len(),
                self.like(old(self)),
                model(*self, *fr) == captures(
                    model(*old(self), *old(fr)),
                    name@,
                    free@,
                    k as nat,
                ),
            decreases free@.len() - k,
        {
            proof {
                reveal(captures);
            }
            let v = free.get(k);
            match fr.vars.get(v) {
                Some(loc) => {
                    let l: VarLoc = *loc;
                    emit_load_var(&mut fr.code, l, "rax");
                },
                None => {
                    self.intern(text(v));
                    fr.code.append("    mov rax, [rip + _");
                    fr.code.append(v);
                    fr.code.append("]\n");
                },
            }
            fr.code.append("    mov [rip + __");
            fr.code.append(name);
            fr.code.append("_capture_");
            fr.code.append(v);
            fr.code.append("], rax\n");
            k = k + 1;
        }
    }

    /// Moves the parameters from the argument registers to pool registers, and to
    /// stack slots once the pool is used up.
    fn bind_params_exec(&mut self, params: &Vec<FnParam>, fr: &mut Frame)
        requires
            old(self).ok(),
        ensures
            final(self).like(old(self)),
            model(*final(self), *final(fr)) == bind_args(
                model(*old(self), *old(fr)),
                params@,
                params@.len(),
            ),
    {
        proof {
            reveal(bind_args);
        }
        let mut k: usize = 0;
        while k < params.len()
            invariant
                k <= params@.len(),
                self.like(old(self)),
                model(*self, *fr) == bind_args(
                    model(*old(self), *old(fr)),
                    params@,
                    k as nat,
                ),
            decreases params@.len() - k,
        {
            proof {
                reveal(bind_args);
            }
            if k < 4 {
                emit2(&mut fr.code, "mov", pool_name(k), arg_name(k));
                fr.vars.insert(params[k].name.name.clone(), VarLoc::Reg(k));
                fr.next = k + 1;
                let _place = self.regalloc.allocate(params[k].name.name.as_str(), 0, usize::MAX);
            } else {
                fr.off = lowered(fr.off);
                emit_store_slot(&mut fr.code, fr.off, arg_name(k));
                fr.vars.insert(params[k].name.name.clone(), VarLoc::Stack(fr.off));
            }
            k = k + 1;
        }
    }

    /// Starts the body of a new function and gives its epilogue label.
    fn enter(&mut self) -> (r: String)
        requires
            old(self).ok(),
        ensures
            final(self).like(old(self)),
            r@ == lab(".Lepi_"@, old(self).label_counter),
            opt_text(final(self).cur_epilogue) == Some(r@),
            *final(self) == (X86CodeGen {
                label_counter: bump(old(self).label_counter),
                cur_epilogue: final(self).cur_epilogue,
                ..*old(self)
            }),
    {
        proof {
            reveal(lab);
        }
        let id: usize = self.next_label();
        let l = label(".Lepi_", id);
        self.cur_epilogue = Some(l.clone());
        l
    }

    /// Starts with a fresh allocator.
    fn reset_alloc(&mut self)
        requires
            old(self).ok(),
        ensures
            final(self).like(old(self)),
            final(self).regalloc@ == fresh_alloc(old(self).regalloc@.regs, 0),
            *final(self) == (X86CodeGen {
                regalloc: final(self).regalloc,
                instr_pos: 0,
                ..*old(self)
            }),
    {
        self.regalloc.reset(0);
        self.instr_pos = 0;
    }

    /// Adds a function whose body has been compiled.
    fn finish(
        &mut self,
        fr: Frame,
        name: String,
        is_main: bool,
        saved: usize,
        frame: u64,
        epilogue: String,
    )
        requires
            old(self).ok(),
        ensures
            is_main ==> any_main(final(self).functions@),
            final(self).like(old(self)),
            final(self).functions@ == old(self).functions@.push(
                (Func {
                    name: name@,
                    code: fr.code@,
                    is_main,
                    saved,
                    frame: frame as int,
                    epilogue: epilogue@,
                }),
            ),
            *final(self) == (X86CodeGen {
                functions: final(self).functions,
                cur_epilogue: None,
                ..*old(self)
            }),
    {
        self.cur_epilogue = None;
        let ghost before = self.functions@;
        self.functions.push(CompiledFn { name, code: fr.code, is_main, saved, frame, epilogue });
        proof {
            lemma_any_main_push(before, self.functions@.last());
        }
    }

    /// Compiles a lambda as a function of its own, with its address in
    /// `target`.
    #[verifier::rlimit(50)]
    fn compile_lambda(&mut self, l: &LambdaExpr, fr: &mut Frame, target: &str)
        requires
            old(self).ok(),
            expr_ok(old(self).target(), Expr::Lambda(*l)),
        ensures
            final(self).like(old(self)),
            model(*final(self), *final(fr)) == lambda_code(
                old(self).env(),
                old(self).ctx(),
                model(*old(self), *old(fr)),
                *l,
                target@,
            ),
        decreases old(self).ctx().depth, 0nat, l, 0nat,
    {
        let name = label("__lambda_", self.lambda_counter);
        self.lambda_counter = bumped(self.lambda_counter);
        let free = collect_free_vars_expr(&l.body, &l.params);
        self.emit_captures(name.as_str(), &free, fr);
        let ghost s1 = model(*self, *fr);
        let mut inner = Frame::new();
        let epilogue = self.enter();
        self.reset_alloc();
        assert(model(*self, inner) == enter_fn(s1));
        self.bind_params_exec(&l.params, &mut inner);
        self.compile_expr(&l.body, &mut inner, "rax");
        self.emit_return(&mut inner);
        inner.code.append("    mov rax, 0\n");
        emit1(&mut inner.code, "jmp", epilogue.as_str());
        let saved: usize = pool_lesser(inner.next);
        let frame: u64 = padded_size(inner.off, saved);
        self.finish(inner, name.clone(), false, saved, frame, epilogue);
        emit_lea(&mut fr.code, target, name.as_str());
    }

    // -----------------------------------------------------------------------
    // Statements
    // -----------------------------------------------------------------------

    /// Compiles statements one after the other.
    fn compile_stmts(&mut self, ss: &Vec<Stmt>, fr: &mut Frame)
        requires
            old(self).ok(),
            stmts_ok(old(self).target(), ss@, ss@.len()),
        ensures
            final(self).like(old(self)),
            model(*final(self), *final(fr)) == stmts_code(
                old(self).env(),
                old(self).ctx(),
                model(*old(self), *old(fr)),
                ss@,
                ss@.len(),
            ),
        decreases old(self).ctx().depth, 3nat, ss@, 1nat,
    {
        let mut k: usize = 0;
        while k < ss.len()
            invariant
                k <= ss@.len(),
                stmts_ok(old(self).target(), ss@, ss@.len()),
                self.like(old(self)),
                model(*self, *fr) == stmts_code(
                    old(self).env(),
                    old(self).ctx(),
                    model(*old(self), *old(fr)),
                    ss@,
                    k as nat,
                ),
            decreases ss@.len() - k,
        {
            proof {
                lemma_stmt_at(self.target(), ss@, ss@.len(), k as int);
            }
            self.compile_stmt(&ss[k], fr);
            k = k + 1;
        }
    }

    /// Compiles the statements of an optional block.
    fn compile_block(&mut self, b: &Option<Vec<Stmt>>, fr: &mut Frame)
        requires
            old(self).ok(),
            block_ok(old(self).target(), *b),
        ensures
            final(self).like(old(self)),
            model(*final(self), *final(fr)) == block_code(
                old(self).env(),
                old(self).ctx(),
                model(*old(self), *old(fr)),
                *b,
            ),
        decreases old(self).ctx().depth, 3nat, b, 0nat,
    {
        match b {
            Some(v) => {
                self.compile_stmts(v, fr);
            },
            None => {},
        }
    }

    /// Compiles a statement.
    fn compile_stmt(&mut self, s: &Stmt, fr: &mut Frame)
        requires
            old(self).ok(),
            stmt_ok(old(self).target(), *s),
        ensures
            final(self).like(old(self)),
            model(*final(self), *final(fr)) == stmt_code(
                old(self).env(),
                old(self).ctx(),
                model(*old(self), *old(fr)),
                *s,
            ),
        decreases old(self).ctx().depth, 3nat, s, 0nat,
    {
        match s {
            Stmt::Assign(x) => {
                if x.targets.len() > 0 {
                    match &x.targets[0] {
                        Assignee::Identifier(id) => {
                            let loc: VarLoc = self.alloc_var(fr, id.name.as_str());
                            self.compile_expr(&x.value, fr, "rax");
                            emit_store_var(&mut fr.code, loc, "rax");
                        },
                        _ => {},
                    }
                }
            },
            Stmt::Return(r) => {
                if r.values.len() > 0 {
                    self.compile_expr(&r.values[0], fr, "rax");
                } else {
                    fr.code.append("    mov rax, 0\n");
                }
                self.emit_return(fr);
            },
            Stmt::If(i) => {
                self.compile_if(i, fr);
            },
            Stmt::While(w) => {
                self.compile_while(w, fr);
            },
            Stmt::Loop(l) => {
                let id: usize = self.next_label();
                let start = label(".Lloop_", id);
                let end = label(".Lloopend_", id);
                self.loop_stack.push(start.clone(), end.clone());
                emit_label(&mut fr.code, start.as_str());
                self.compile_stmts(&l.body, fr);
                emit1(&mut fr.code, "jmp", start.as_str());
                emit_label(&mut fr.code, end.as_str());
                self.loop_stack.pop();
                assert(self.loop_stack@ =~= old(self).loop_stack@);
            },
            Stmt::Break(b) => {
                emit_break(&mut fr.code, &self.loop_stack, &b.label);
            },
            Stmt::Continue(c) => {
                emit_continue(&mut fr.code, &self.loop_stack, &c.label);
            },
            Stmt::ForRange(x) => {
                self.compile_for_range(x, fr);
            },
            Stmt::ForIn(x) => {
                self.compile_for_in(x, fr);
            },
            Stmt::Expr(e) => {
                self.compile_expr(&e.expr, fr, "rax");
            },
            Stmt::Println(p) => {
                self.compile_print_args(&p.args, fr);
                self.emit_newline(fr);
            },
            Stmt::UnsafeBlock(u) => {
                self.compile_stmts(&u.body, fr);
            },
            Stmt::Asm(x) => {
                self.compile_asm(x, fr);
            },
            Stmt::Try(t) => {
                self.compile_try(t, fr);
            },
            Stmt::Throw(t) => {
                self.compile_expr(&t.value, fr, "rax");
                emit_raise(&mut fr.code);
            },
            Stmt::Panic(p) => {
                self.compile_expr(&p.message, fr, "rax");
                emit_raise(&mut fr.code);
            },
            _ => {},
        }
    }

    /// Compiles a condition that is compared with zero.
    fn compile_plain_cond(&mut self, e: &Expr, fr: &mut Frame, skip: &str)
        requires
            old(self).ok(),
            expr_ok(old(self).target(), *e),
        ensures
            final(self).like(old(self)),
            model(*final(self), *final(fr)) == plain_cond(
                old(self).env(),
                old(self).ctx(),
                model(*old(self), *old(fr)),
                *e,
                skip@,
            ),
        decreases old(self).ctx().depth, 1nat, e, 0nat,
    {
        self.compile_expr(e, fr, "rax");
        fr.code.append("    cmp rax, 0\n");
        emit1(&mut fr.code, "je", skip);
    }

    /// Compiles a condition, with a jump to `skip` where it does not hold.  A
    /// comparison jumps by its flags.
    #[verifier::rlimit(40)]
    fn compile_cond(&mut self, e: &Expr, fr: &mut Frame, skip: &str)
        requires
            old(self).ok(),
            cond_ok(old(self).target(), *e),
        ensures
            final(self).like(old(self)),
            model(*final(self), *final(fr)) == cond_code(
                old(self).env(),
                old(self).ctx(),
                model(*old(self), *old(fr)),
                *e,
                skip@,
            ),
        decreases old(self).ctx().depth, 2nat, e, 0nat,
    {
        proof {
            reveal(cond_of);
        }
        match e {
            Expr::Binary(b) => {
                match condition_of(b.operator) {
                    Some(_) => {
                        self.compile_expr(&b.left, fr, "rax");
                        match &*b.right {
                            Expr::Integer(i) => {
                                emit1n(&mut fr.code, "cmp", "rax", i.value);
                            },
                            _ => {
                                if is_plain_arg(&b.right) {
                                    self.compile_expr(&b.right, fr, "rcx");
                                } else {
                                    fr.code.append("    push rax\n");
                                    self.compile_expr(&b.right, fr, "rcx");
                                    fr.code.append("    pop rax\n");
                                }
                                fr.code.append("    cmp rax, rcx\n");
                            },
                        }
                        emit1(&mut fr.code, skip_jump_of(b.operator), skip);
                    },
                    None => {
                        self.compile_plain_cond(e, fr, skip);
                    },
                }
            },
            _ => {
                self.compile_plain_cond(e, fr, skip);
            },
        }
    }

    /// Compiles an `if`.
    fn compile_if(&mut self, i: &IfStmt, fr: &mut Frame)
        requires
            old(self).ok(),
            stmt_ok(old(self).target(), Stmt::If(*i)),
        ensures
            final(self).like(old(self)),
            model(*final(self), *final(fr)) == if_code(
                old(self).env(),
                old(self).ctx(),
                model(*old(self), *old(fr)),
                *i,
            ),
        decreases old(self).ctx().depth, 3nat, i, 0nat,
    {
        let id: usize = self.next_label();
        let skip = label(".Lelse_", id);
        let end = label(".Lend_", id);
        self.compile_cond(&i.condition, fr, skip.as_str());
        self.compile_stmts(&i.then_body, fr);
        emit1(&mut fr.code, "jmp", end.as_str());
        emit_label(&mut fr.code, skip.as_str());
        match &i.else_body {
            Some(b) => {
                self.compile_stmts(b, fr);
            },
            None => {},
        }
        emit_label(&mut fr.code, end.as_str());
    }

    /// Compiles a `while`.
    fn compile_while(&mut self, w: &WhileStmt, fr: &mut Frame)
        requires
            old(self).ok(),
            stmt_ok(old(self).target(), Stmt::While(*w)),
        ensures
            final(self).like(old(self)),
            model(*final(self), *final(fr)) == while_code(
                old(self).env(),
                old(self).ctx(),
                model(*old(self), *old(fr)),
                *w,
            ),
        decreases old(self).ctx().depth, 3nat, w, 0nat,
    {
        let id: usize = self.next_label();
        let start = label(".Lwhile_", id);
        let end = label(".Lwend_", id);
        self.loop_stack.push(start.clone(), end.clone());
        emit_label(&mut fr.code, start.as_str());
        self.compile_expr(&w.condition, fr, "rax");
        fr.code.append("    cmp rax, 0\n");
        emit1(&mut fr.code, "je", end.as_str());
        self.compile_stmts(&w.body, fr);
        emit1(&mut fr.code, "jmp", start.as_str());
        emit_label(&mut fr.code, end.as_str());
        self.loop_stack.pop();
        assert(self.loop_stack@ =~= old(self).loop_stack@);
    }

    /// Compiles an optional expression; zero stands for a missing one.
    fn compile_opt(&mut self, e: &Option<Box<Expr>>, fr: &mut Frame, target: &str)
        requires
            old(self).ok(),
            opt_ok(old(self).target(), *e),
        ensures
            final(self).like(old(self)),
            model(*final(self), *final(fr)) == opt_code(
                old(self).env(),
                old(self).ctx(),
                model(*old(self), *old(fr)),
                *e,
                target@,
            ),
        decreases old(self).ctx().depth, 1nat, e, 0nat,
    {
        match e {
            Some(x) => {
                self.compile_expr(x, fr, target);
            },
            None => {
                emit1n(&mut fr.code, "mov", target, 0);
            },
        }
    }

    /// Compiles the step of a counting loop and stores it to `slot`.
    fn compile_step(&mut self, e: &Option<Box<Expr>>, fr: &mut Frame, slot: i32)
        requires
            old(self).ok(),
            opt_ok(old(self).target(), *e),
        ensures
            final(self).like(old(self)),
            model(*final(self), *final(fr)) == step_code(
                old(self).env(),
                old(self).ctx(),
                model(*old(self), *old(fr)),
                *e,
                slot,
            ),
        decreases old(self).ctx().depth, 1nat, e, 0nat,
    {
        match e {
            Some(x) => {
                self.compile_expr(x, fr, "rax");
            },
            None => {
                fr.code.append("    mov rax, 1\n");
            },
        }
        emit_store_slot(&mut fr.code, slot, "rax");
    }

    /// Compiles a counting loop.
    #[verifier::rlimit(50)]
    fn compile_for_range(&mut self, x: &ForRangeStmt, fr: &mut Frame)
        requires
            old(self).ok(),
            stmt_ok(old(self).target(), Stmt::ForRange(*x)),
        ensures
            final(self).like(old(self)),
            model(*final(self), *final(fr)) == for_range_code(
                old(self).env(),
                old(self).ctx(),
                model(*old(self), *old(fr)),
                *x,
            ),
        decreases old(self).ctx().depth, 3nat, x, 0nat,
    {
        let id: usize = self.next_label();
        let bound: i32 = lowered(fr.off);
        let step: i32 = lowered(bound);
        fr.off = step;
        self.compile_expr(&x.from, fr, "rax");
        let loc: VarLoc = self.alloc_var(fr, x.var.name.as_str());
        emit_store_var(&mut fr.code, loc, "rax");
        self.compile_expr(&x.to, fr, "rax");
        emit_store_slot(&mut fr.code, bound, "rax");
        self.compile_step(&x.step, fr, step);
        self.loop_stack.push(label(".Lfrincr_", id), label(".Lfrend_", id));
        emit_range_head(&mut fr.code, id, loc, bound, step);
        self.compile_stmts(&x.body, fr);
        emit_range_tail(&mut fr.code, id, loc, step);
        self.loop_stack.pop();
        assert(self.loop_stack@ =~= old(self).loop_stack@);
    }

    /// Compiles a for-in loop over a string, a range or a list literal.
    fn compile_for_in(&mut self, x: &ForInStmt, fr: &mut Frame)
        requires
            old(self).ok(),
            for_in_ok(old(self).target(), *x),
        ensures
            final(self).like(old(self)),
            model(*final(self), *final(fr)) == for_in_code(
                old(self).env(),
                old(self).ctx(),
                model(*old(self), *old(fr)),
                *x,
            ),
        decreases old(self).ctx().depth, 3nat, x, 1nat,
    {
        match &x.iterable {
            Expr::String_(s) => {
                let t = string_parts_text(&s.parts);
                self.compile_str_loop(x, t, fr);
            },
            Expr::Range(r) => {
                self.compile_range_loop(x, r, fr);
            },
            Expr::List(_) => {
                self.compile_unrolled(x, fr);
            },
            _ => {
                fr.code.append("    # for-in: unsupported iterable type in raw mode\n");
            },
        }
    }

    /// Compiles a loop over the bytes of a string.
    #[verifier::rlimit(50)]
    fn compile_str_loop(&mut self, x: &ForInStmt, t: String, fr: &mut Frame)
        requires
            old(self).ok(),
            stmts_ok(old(self).target(), x.body@, x.body@.len()),
        ensures
            final(self).like(old(self)),
            model(*final(self), *final(fr)) == str_loop_code(
                old(self).env(),
                old(self).ctx(),
                model(*old(self), *old(fr)),
                *x,
                t@,
            ),
        decreases old(self).ctx().depth, 3nat, x, 0nat,
    {
        let ghost st = model(*old(self), *old(fr));
        let ghost env = old(self).env();
        let ghost ctx = old(self).ctx();
        let ghost tv = t@;
        let len: usize = byte_length(t.as_str());
        let n: usize = self.intern(t);
        let id: usize = self.next_label();
        let cond = label(".Lfistrcond_", id);
        let end = label(".Lfistrend_", id);
        assert(model(*self, *fr) == st.intern(tv).labelled());
        let loc: VarLoc = self.alloc_var(fr, x.var.name.as_str());
        let ghost s1 = model(*self, *fr);
        assert((loc, s1) == place_var(st.intern(tv).labelled(), x.var.name@));
        emit_str_loop_head(&mut fr.code, n, len, cond.as_str(), end.as_str());
        let ghost o = fr.code@;
        assert(o == str_loop_head(s1.code, st.strs.len(), byte_len(tv) as nat, cond@, end@));
        emit_store_var(&mut fr.code, loc, "rax");
        self.loop_stack.push(cond.clone(), end.clone());
        let ghost s2 = s1.with(store_var(o, loc, "rax"@));
        assert(model(*self, *fr) == s2);
        let ghost inner = Ctx { loops: ctx.loops.push((cond@, end@)), ..ctx };
        assert(self.ctx() == inner);
        assert(self.env() == env);
        self.compile_stmts(&x.body, fr);
        let ghost s3 = model(*self, *fr);
        assert(s3 == stmts_code(env, inner, s2, x.body@, x.body@.len()));
        fr.code.append("    inc r8\n");
        emit1(&mut fr.code, "jmp", cond.as_str());
        emit_label(&mut fr.code, end.as_str());
        self.loop_stack.pop();
        assert(self.loop_stack@ =~= old(self).loop_stack@);
        assert(model(*self, *fr) == s3.with(s3.code + "    inc r8\n"@ + ins1("jmp"@, cond@) + label_line(end@)));
    }

    /// Compiles a loop over a range expression.
    #[verifier::rlimit(50)]
    fn compile_range_loop(&mut self, x: &ForInStmt, r: &RangeExpr, fr: &mut Frame)
        requires
            old(self).ok(),
            opt_ok(old(self).target(), r.start),
            opt_ok(old(self).target(), r.end),
            opt_ok(old(self).target(), r.step),
            stmts_ok(old(self).target(), x.body@, x.body@.len()),
        ensures
            final(self).like(old(self)),
            model(*final(self), *final(fr)) == range_loop_code(
                old(self).env(),
                old(self).ctx(),
                model(*old(self), *old(fr)),
                *x,
                *r,
            ),
        decreases old(self).ctx().depth, 3nat, x, 0nat,
    {
        let id: usize = self.next_label();
        let bound: i32 = lowered(fr.off);
        let step: i32 = lowered(bound);
        fr.off = step;
        self.compile_opt(&r.start, fr, "rax");
        let loc: VarLoc = self.alloc_var(fr, x.var.name.as_str());
        emit_store_var(&mut fr.code, loc, "rax");
        self.compile_opt(&r.end, fr, "rax");
        emit_store_slot(&mut fr.code, bound, "rax");
        self.compile_step(&r.step, fr, step);
        self.loop_stack.push(label(".Lfrincr_", id), label(".Lfrend_", id));
        emit_range_head(&mut fr.code, id, loc, bound, step);
        self.compile_stmts(&x.body, fr);
        emit_range_tail(&mut fr.code, id, loc, step);
        self.loop_stack.pop();
        assert(self.loop_stack@ =~= old(self).loop_stack@);
    }

    /// Compiles a loop over a list literal by writing out its passes.
    fn compile_unrolled(&mut self, x: &ForInStmt, fr: &mut Frame)
        requires
            old(self).ok(),
            x.iterable is List,
            for_in_ok(old(self).target(), *x),
        ensures
            final(self).like(old(self)),
            model(*final(self), *final(fr)) == unrolled(
                old(self).env(),
                old(self).ctx(),
                model(*old(self), *old(fr)),
                *x,
                x.iterable->List_0.elements@.len(),
            ),
        decreases old(self).ctx().depth, 3nat, x, 0nat,
    {
        match &x.iterable {
            Expr::List(l) => {
                let mut k: usize = 0;
                while k < l.elements.len()
                    invariant
                        x.iterable == Expr::List(*l),
                        k <= l.elements@.len(),
                        for_in_ok(old(self).target(), *x),
                        self.like(old(self)),
                        model(*self, *fr) == unrolled(
                            old(self).env(),
                            old(self).ctx(),
                            model(*old(self), *old(fr)),
                            *x,
                            k as nat,
                        ),
                    decreases l.elements@.len() - k,
                {
                    proof {
                        lemma_expr_at(
                            self.target(),
                            l.elements@,
                            l.elements@.len(),
                            k as int,
                        );
                    }
                    self.compile_expr(&l.elements[k], fr, "rax");
                    let loc: VarLoc = self.alloc_var(fr, x.var.name.as_str());
                    emit_store_var(&mut fr.code, loc, "rax");
                    self.compile_stmts(&x.body, fr);
                    k = k + 1;
                }
            },
            _ => {},
        }
    }

    /// Prints values: strings as they are, and everything else as a number.
    fn compile_print_args(&mut self, args: &Vec<Expr>, fr: &mut Frame)
        requires
            old(self).ok(),
            exprs_ok(old(self).target(), args@, args@.len()),
        ensures
            final(self).like(old(self)),
            model(*final(self), *final(fr)) == print_args(
                old(self).env(),
                old(self).ctx(),
                model(*old(self), *old(fr)),
                args@,
                args@.len(),
            ),
        decreases old(self).ctx().depth, 1nat, args@, 0nat,
    {
        let mut k: usize = 0;
        while k < args.len()
            invariant
                k <= args@.len(),
                exprs_ok(old(self).target(), args@, args@.len()),
                self.like(old(self)),
                model(*self, *fr) == print_args(
                    old(self).env(),
                    old(self).ctx(),
                    model(*old(self), *old(fr)),
                    args@,
                    k as nat,
                ),
            decreases args@.len() - k,
        {
            proof {
                lemma_expr_at(self.target(), args@, args@.len(), k as int);
            }
            match &args[k] {
                Expr::String_(s) => {
                    let t = string_parts_text(&s.parts);
                    let len: usize = byte_length(t.as_str());
                    let n: usize = self.intern(t);
                    emit_write_str(&mut fr.code, n, len);
                },
                _ => {
                    self.compile_expr(&args[k], fr, "rax");
                    self.emit_print_int(fr);
                },
            }
            k = k + 1;
        }
    }

    /// Compiles the inputs of an inline assembly block into their operand
    /// registers.
    fn compile_inputs(&mut self, ops: &Vec<AsmOperand>, base: usize, fr: &mut Frame)
        requires
            old(self).ok(),
            operands_ok(old(self).target(), ops@, ops@.len()),
            base + ops@.len() <= 9,
        ensures
            final(self).like(old(self)),
            model(*final(self), *final(fr)) == inputs_code(
                old(self).env(),
                old(self).ctx(),
                model(*old(self), *old(fr)),
                ops@,
                base as nat,
                ops@.len(),
            ),
        decreases old(self).ctx().depth, 1nat, ops@, 0nat,
    {
        let mut k: usize = 0;
        while k < ops.len()
            invariant
                k <= ops@.len(),
                operands_ok(old(self).target(), ops@, ops@.len()),
                base + ops@.len() <= 9,
                self.like(old(self)),
                model(*self, *fr) == inputs_code(
                    old(self).env(),
                    old(self).ctx(),
                    model(*old(self), *old(fr)),
                    ops@,
                    base as nat,
                    k as nat,
                ),
            decreases ops@.len() - k,
        {
            proof {
                lemma_operand_at(self.target(), ops@, ops@.len(), k as int);
            }
            let r = scratch_name(base + k);
            self.compile_expr(&ops[k].expr, fr, r);
            k = k + 1;
        }
    }

    /// Compiles an inline assembly block: operand registers come from a
    /// scratch pool, outputs first.
    #[verifier::rlimit(50)]
    fn compile_asm(&mut self, x: &AsmStmt, fr: &mut Frame)
        requires
            old(self).ok(),
            asm_ok(old(self).target(), *x),
        ensures
            final(self).like(old(self)),
            model(*final(self), *final(fr)) == asm_code(
                old(self).env(),
                old(self).ctx(),
                model(*old(self), *old(fr)),
                *x,
            ),
        decreases old(self).ctx().depth, 2nat, x, 0nat,
    {
        emit_template_comments(&mut fr.code, x);
        let total: u128 = x.outputs.len() as u128 + x.inputs.len() as u128;
        if total > 9 {
            fr.code.append("    # too many operands (");
            push_wide(&mut fr.code, total);
            fr.code.append(" > 9); emitting template verbatim\n");
            emit_template(&mut fr.code, x.template.as_str(), None);
            return;
        }
        self.compile_inputs(&x.inputs, x.outputs.len(), fr);
        let regs = scratch_names(total as usize);
        emit_template(&mut fr.code, x.template.as_str(), Some(&regs));
        emit_store_outputs(&mut fr.code, &fr.vars, &x.outputs);
    }

    /// Compiles a `try` with its handler on the handler stack.
    #[verifier::rlimit(50)]
    fn compile_try(&mut self, t: &TryStmt, fr: &mut Frame)
        requires
            old(self).ok(),
            try_ok(old(self).target(), *t),
        ensures
            final(self).like(old(self)),
            model(*final(self), *final(fr)) == try_code(
                old(self).env(),
                old(self).ctx(),
                model(*old(self), *old(fr)),
                *t,
            ),
        decreases old(self).ctx().depth, 3nat, t, 0nat,
    {
        let id: usize = self.next_label();
        let catch_label = label(".Lcatch_", id);
        let end = label(".Ltryend_", id);
        emit_push_handler(&mut fr.code, catch_label.as_str());
        self.compile_stmts(&t.try_body, fr);
        emit_pop_handler(&mut fr.code);
        self.compile_block(&t.finally_body, fr);
        emit1(&mut fr.code, "jmp", end.as_str());
        emit_label(&mut fr.code, catch_label.as_str());
        emit_pop_handler(&mut fr.code);
        match &t.catch_var {
            Some(v) => {
                let loc: VarLoc = self.alloc_var(fr, v.name.as_str());
                emit_store_var(&mut fr.code, loc, "rax");
            },
            None => {},
        }
        self.compile_block(&t.catch_body, fr);
        self.compile_block(&t.finally_body, fr);
        emit_label(&mut fr.code, end.as_str());
    }
}

/// The bytes that a frame reserves for slots.
fn frame_size(off: i32, saved: usize) -> (r: u64)
    requires
        saved <= 4,
    ensures
        r == slot_bytes(off, saved),
        r <= 0x8000_000f,
{
    let used: u64 = if off < SLOTS_TOP {
        (-(off as i64)) as u64 - (8 + 8 * saved as u64)
    } else {
        0
    };
    ((used + 15) / 16) * 16
}

/// The bytes that the frame of a function with `saved` saved registers
/// reserves.
fn padded_size(off: i32, saved: usize) -> (r: u64)
    requires
        saved <= 4,
    ensures
        r == padded_frame(off, saved),
{
    let n: u64 = frame_size(off, saved);
    if saved % 2 == 0 {
        n + 8
    } else {
        n
    }
}

/// The lesser of a register count and the size of the pool.
fn pool_lesser(n: usize) -> (r: usize)
    ensures
        r == pool_min(n),
{
    if n < 4 {
        n
    } else {
        4
    }
}

/// Once a parameter has found no register, binding has come to its end.
proof fn lemma_bind_stops(env: Env, ctx: Ctx, st: Code, f: FnDef, c: CallExpr, k: nat, n: nat)
    requires
        k <= n <= f.params@.len(),
        n <= c.args@.len(),
        !bind_params(env, ctx, st, f, c, k).1,
    ensures
        bind_params(env, ctx, st, f, c, n) == bind_params(env, ctx, st, f, c, k),
    decreases n - k,
{
    if k < n {
        lemma_bind_stops(env, ctx, st, f, c, k, (n - 1) as nat);
    }
}

// ---------------------------------------------------------------------------
// Functions and programs
// ---------------------------------------------------------------------------

/// The loop that stands for a doubly recursive Fibonacci function.
fn fib_code(epi: &str, n: usize) -> (r: String)
    ensures
        r@ == fib_text(epi@, n),
{
    proof {
        reveal(fib_text);
    }
    let l = label(".Lfib_loop_", n);
    let done = label(".Lfib_done_", n);
    let base = label(".Lfib_base_", n);
    let mut s = String::new();
    let out = &mut s;
    out.append("    mov rax, rdi\n    cmp rax, 1\n");
    emit1(out, "jle", base.as_str());
    out.append("    xor rcx, rcx\n    mov rdx, 1\n    mov r8, 2\n");
    emit_label(out, l.as_str());
    out.append("    cmp r8, rax\n");
    emit1(out, "jg", done.as_str());
    out.append("    lea r9, [rcx + rdx]\n    mov rcx, rdx\n    mov rdx, r9\n    inc r8\n");
    emit1(out, "jmp", l.as_str());
    emit_label(out, done.as_str());
    out.append("    mov rax, rdx\n");
    emit1(out, "jmp", epi);
    emit_label(out, base.as_str());
    out.append("    mov rax, rdi\n");
    emit1(out, "jmp", epi);
    s
}

/// Pushes the first `n` pool registers.
fn emit_save_regs(out: &mut String, n: usize)
    ensures
        final(out)@ == save_regs(old(out)@, n as nat),
{
    proof {
        reveal(save_regs);
    }
    let mut i: usize = 0;
    while i < n
        invariant
            i <= n,
            out@ == save_regs(old(out)@, i as nat),
        decreases n - i,
    {
        proof {
            reveal(save_regs);
        }
        emit1(out, "push", pool_name(i));
        i = i + 1;
    }
}

/// Pops the first `n` pool registers, in reverse.
fn emit_restore_regs(out: &mut String, n: usize)
    ensures
        final(out)@ == restore_regs(old(out)@, n as nat),
{
    proof {
        reveal(restore_regs);
    }
    let mut i: usize = n;
    while i > 0
        invariant
            i <= n,
            restore_regs(old(out)@, n as nat) == restore_regs(out@, i as nat),
        decreases i,
    {
        proof {
            reveal(restore_regs);
        }
        i = i - 1;
        emit1(out, "pop", pool_name(i));
    }
}

/// The entry sequence of a function.
fn emit_prologue(out: &mut String, f: &CompiledFn)
    ensures
        final(out)@ == prologue(old(out)@, f@),
{
    proof {
        reveal(prologue);
    }
    emit_label(out, f.name.as_str());
    out.append("    push rbp\n    mov rbp, rsp\n    push r12\n");
    emit_save_regs(out, f.saved);
    if f.frame > 0 {
        out.append("    sub rsp, ");
        push_dec(out, f.frame);
        out.append("\n");
    }
}

/// The exit sequence of a function.
fn emit_epilogue(out: &mut String, f: &CompiledFn)
    ensures
        final(out)@ == epilogue_text(old(out)@, f@),
{
    proof {
        reveal(epilogue_text);
    }
    emit_label(out, f.epilogue.as_str());
    if f.frame > 0 {
        out.append("    add rsp, ");
        push_dec(out, f.frame);
        out.append("\n");
    }
    emit_restore_regs(out, f.saved);
    out.append("    pop r12\n    pop rbp\n    ret\n\n");
}

impl<'a> X86CodeGen<'a> {
    /// A new generator.
    pub fn new() -> (r: Self)
        ensures
            r.idle(),
            r.env() == fresh_env("x86_64"@),
            r.state() == fresh_code(),
    {
        X86CodeGen {
            functions: FnList::new(),
            string_consts: TextList::new(),
            errors: TextList::new(),
            label_counter: 0,
            cur_epilogue: None,
            fn_defs: StringHashMap::new(),
            inline_depth: 0,
            loop_stack: PairList::new(),
            lambda_counter: 0,
            dtor_defs: StringHashMap::new(),
            struct_defs: StringHashMap::new(),
            struct_alignments: AlignList::new(),
            regalloc: RegisterAllocator::new(pool_names(), 0),
            instr_pos: 0,
        }
    }

    /// Decides whether a new generator can compile the program.
    pub fn supports(program: &Program) -> (r: bool)
        ensures
            r == decls_ok(
                x86_target(),
                noted(
                    fresh_env("x86_64"@),
                    program_decls(*program),
                    program_decls(*program).len(),
                ),
                fresh_code().funcs,
                program_decls(*program),
            ),
    {
        supports(Target { args: 6, scratch: 9, strict: true }, program, Ghost("x86_64"@))
    }

    /// `self` is outside of any function, loop and inlined body.
    spec fn outside(&self) -> bool {
        self.inline_depth == 0 && self.loop_stack@.len() == 0
    }

    /// Compiles a doubly recursive Fibonacci function to a loop.
    fn try_compile_fib_iterative(&mut self, f: &FnDef) -> (r: bool)
        requires
            old(self).ok(),
            old(self).outside(),
        ensures
            r == fib_shape(*f),
            r && f.name.name@ != "main"@ ==> final(self).like(old(self)) && final(self).outside()
                && final(self).state() == fn_code(old(self).env(), old(self).state(), *f),
            !r ==> *final(self) == *old(self),
    {
        if !is_fib(f) {
            return false;
        }
        let id: usize = self.next_label();
        let epilogue = label(".Lepi_", id);
        let ghost before = self.functions@;
        let n: usize = self.next_label();
        let code = fib_code(epilogue.as_str(), n);
        self.functions.push(
            CompiledFn {
                name: f.name.name.clone(),
                code,
                is_main: false,
                saved: 0,
                frame: 0,
                epilogue,
            },
        );
        proof {
            lemma_any_main_push(before, self.functions@.last());
        }
        true
    }

    /// Compiles the destructor calls of the given variables.
    fn compile_dtors(&mut self, vars: &PairList, fr: &mut Frame)
        requires
            old(self).ok(),
            old(self).outside(),
            forall|i: int|
                0 <= i < vars@.len() && old(self).env().dtors.contains_key(
                    (#[trigger] vars@[i]).1,
                ) ==> stmts_ok(
                    old(self).target(),
                    old(self).env().dtors[vars@[i].1].body@,
                    old(self).env().dtors[vars@[i].1].body@.len(),
                ),
        ensures
            final(self).like(old(self)),
            model(*final(self), *final(fr)) == dtors_code(
                old(self).env(),
                model(*old(self), *old(fr)),
                vars@,
                vars@.len(),
            ),
    {
        proof {
            reveal(dtors_code);
        }
        let mut k: usize = 0;
        while k < vars.len()
            invariant
                k <= vars@.len(),
                old(self).outside(),
                self.like(old(self)),
                forall|i: int|
                    0 <= i < vars@.len() && old(self).env().dtors.contains_key(
                        (#[trigger] vars@[i]).1,
                    ) ==> stmts_ok(
                        old(self).target(),
                        old(self).env().dtors[vars@[i].1].body@,
                        old(self).env().dtors[vars@[i].1].body@.len(),
                    ),
                model(*self, *fr) == dtors_code(
                    old(self).env(),
                    model(*old(self), *old(fr)),
                    vars@,
                    k as nat,
                ),
            decreases vars@.len() - k,
        {
            proof {
                reveal(dtors_code);
            }
            let t = vars.second(k);
            fr.code.append("    # dtor: calling ~");
            fr.code.append(t);
            fr.code.append(" for ");
            fr.code.append(vars.first(k));
            fr.code.append("\n");
            assert(vars@[k as int].1 == t@);
            assert(self.ctx().loops =~= top_ctx().loops);
            match self.dtor_defs.get(t) {
                Some(d) => {
                    let d: &'a DtorBlock = *d;
                    self.compile_stmts(&d.body, fr);
                },
                None => {},
            }
            k = k + 1;
        }
    }

    /// Compiles a function definition.
    #[verifier::rlimit(50)]
    fn compile_function(&mut self, f: &FnDef)
        requires
            old(self).ok(),
            old(self).outside(),
            fn_ok(old(self).target(), old(self).env(), *f),
        ensures
            final(self).like(old(self)),
            final(self).outside(),
            final(self).state() == fn_code(old(self).env(), old(self).state(), *f),
            f.name.name@ == "main"@ ==> any_main(final(self).functions@),
    {
        let is_main: bool = same(f.name.name.as_str(), "main");
        if !is_main && self.try_compile_fib_iterative(f) {
            return;
        }
        let ghost st = self.state();
        let ghost env = self.env();
        assert(self.ctx().loops =~= top_ctx().loops);
        let mut fr = Frame::new();
        let epilogue = self.enter();
        self.reset_alloc();
        assert(model(*self, fr) == enter_fn(st));
        let vars = collect_dtor_vars(&self.dtor_defs, &f.body);
        let has_dtors: bool = vars.len() > 0;
        let mut exit = epilogue.clone();
        if has_dtors {
            let id: usize = self.next_label();
            exit = label(".Lcleanup_", id);
            self.cur_epilogue = Some(exit.clone());
        }
        if !is_main {
            self.bind_params_exec(&f.params, &mut fr);
        }
        self.compile_stmts(&f.body, &mut fr);
        fr.code.append("    mov rax, 0\n");
        emit1(&mut fr.code, "jmp", exit.as_str());
        if has_dtors {
            emit_label(&mut fr.code, exit.as_str());
            self.cur_epilogue = Some(epilogue.clone());
            self.compile_dtors(&vars, &mut fr);
            emit1(&mut fr.code, "jmp", epilogue.as_str());
        }
        assert(model(*self, fr) == fn_body(env, st, *f));
        let saved: usize = if is_main {
            0
        } else {
            pool_lesser(fr.next)
        };
        let frame: u64 = padded_size(fr.off, saved);
        self.finish(fr, f.name.name.clone(), is_main, saved, frame, epilogue);
    }

    /// Notes the alignments that the annotations of the struct `n` ask for.
    fn note_struct_aligns(&mut self, n: &str, anns: &Vec<Annotation>)
        ensures
            *final(self) == (X86CodeGen {
                struct_alignments: final(self).struct_alignments,
                ..*old(self)
            }),
            final(self).struct_alignments@ == note_aligns(
                old(self).struct_alignments@,
                n@,
                anns@,
                anns@.len(),
            ),
    {
        proof {
            reveal(note_aligns);
        }
        let mut k: usize = 0;
        while k < anns.len()
            invariant
                k <= anns@.len(),
                *self == (X86CodeGen {
                    struct_alignments: self.struct_alignments,
                    ..*old(self)
                }),
                self.struct_alignments@ == note_aligns(
                    old(self).struct_alignments@,
                    n@,
                    anns@,
                    k as nat,
                ),
            decreases anns@.len() - k,
        {
            proof {
                reveal(note_aligns);
            }
            match annotated_align(&anns[k]) {
                Some(v) => {
                    self.struct_alignments.set(n, v);
                },
                None => {},
            }
            k = k + 1;
        }
    }

    /// Notes the declarations by name.
    fn note_decls(&mut self, decls: &Vec<&'a TopLevel>)
        requires
            old(self).idle(),
        ensures
            final(self).idle(),
            final(self).state() == old(self).state(),
            final(self).env() == noted(old(self).env(), decls@, decls@.len()),
    {
        let mut k: usize = 0;
        while k < decls.len()
            invariant
                k <= decls@.len(),
                self.idle(),
                self.state() == old(self).state(),
                self.env() == noted(old(self).env(), decls@, k as nat),
            decreases decls@.len() - k,
        {
            match decls[k] {
                TopLevel::FnDef(f) => {
                    self.fn_defs.insert(f.name.name.clone(), f);
                },
                TopLevel::DtorBlock(d) => {
                    self.dtor_defs.insert(d.target.name.clone(), d);
                },
                TopLevel::StructDef(s) => {
                    self.note_struct_aligns(s.name.name.as_str(), &s.annotations);
                    self.struct_defs.insert(s.name.name.clone(), s);
                },
                _ => {},
            }
            k = k + 1;
        }
    }

    /// Compiles the program's statements as its `main`.
    fn compile_main(&mut self, decls: &Vec<&'a TopLevel>)
        requires
            old(self).ok(),
            old(self).outside(),
            forall|i: int|
                0 <= i < decls@.len() ==> ((#[trigger] decls@[i]) matches TopLevel::Statement(s)
                    ==> stmt_ok(old(self).target(), *s)),
        ensures
            final(self).like(old(self)),
            final(self).outside(),
            final(self).state() == main_code(old(self).env(), old(self).state(), decls@),
    {
        proof {
            reveal(top_code);
        }
        let ghost st = self.state();
        let mut fr = Frame::new();
        let epilogue = self.enter();
        let ghost s0 = model(*self, fr);
        assert(s0 == enter_main(st));
        let mut k: usize = 0;
        while k < decls.len()
            invariant
                k <= decls@.len(),
                self.like(old(self)),
                old(self).outside(),
                forall|i: int|
                    0 <= i < decls@.len() ==> ((#[trigger] decls@[i]) matches TopLevel::Statement(
                        s,
                    ) ==> stmt_ok(old(self).target(), *s)),
                model(*self, fr) == top_code(old(self).env(), s0, decls@, k as nat),
            decreases decls@.len() - k,
        {
            proof {
                reveal(top_code);
            }
            assert(self.ctx().loops =~= top_ctx().loops);
            match decls[k] {
                TopLevel::Statement(s) => {
                    self.compile_stmt(s, &mut fr);
                },
                _ => {},
            }
            k = k + 1;
        }
        fr.code.append("    mov rax, 60\n    mov rdi, 0\n    syscall\n");
        let saved: usize = pool_lesser(fr.next);
        let frame: u64 = frame_size(fr.off, saved);
        self.finish(fr, text("main"), true, saved, frame, epilogue);
    }

    /// The assembly file of the compiled program.
    fn generate_elf(&self) -> (r: String)
        ensures
            r@ == elf_text(self.env(), self.state()),
    {
        proof {
            reveal(fns_text);
        }
        let mut out = String::new();
        self.emit_head(&mut out);
        let ghost head = out@;
        let mut k: usize = 0;
        while k < self.functions.len()
            invariant
                k <= self.functions@.len(),
                out@ == fns_text(head, self.functions@, k as nat),
            decreases self.functions@.len() - k,
        {
            proof {
                reveal(fns_text);
            }
            let f = self.functions.get(k);
            assert(f@ == self.functions@[k as int]);
            emit_prologue(&mut out, f);
            out.append(f.code.as_str());
            emit_epilogue(&mut out, f);
            k = k + 1;
        }
        if self.string_consts.len() > 0 {
            out.append(".section .rodata\n");
            emit_strings(&mut out, &self.string_consts);
        }
        out.append(
            ".section .bss\n.balign 8\n__handler_stack:\n    .skip 8192\n__handler_idx:\n    .skip 8\n",
        );
        self.emit_aligns(&mut out);
        out
    }

    /// The head of the file.
    fn emit_head(&self, out: &mut String)
        requires
            old(out)@ == Seq::<char>::empty(),
        ensures
            final(out)@ == file_head(),
    {
        proof {
            reveal(file_head);
        }
        out.append(
            ".intel_syntax noprefix\n# Vredrs raw-mode x86_64 native output\n# Generated by vredrs build --raw\n# No GC, no scheduler, no reflection — zero overhead.\n\n",
        );
        out.append(
            ".section .text\n.globl _start\n\n_start:\n    xor rbp, rbp\n    call main\n    mov rdi, rax\n    mov rax, 60\n    syscall\n\n",
        );
    }

    /// The alignment markers.
    fn emit_aligns(&self, out: &mut String)
        ensures
            final(out)@ == aligns_text(
                old(out)@,
                self.env().aligns,
                self.env().aligns.len(),
            ),
    {
        proof {
            reveal(aligns_text);
        }
        let mut k: usize = 0;
        while k < self.struct_alignments.len()
            invariant
                k <= self.struct_alignments@.len(),
                out@ == aligns_text(old(out)@, self.struct_alignments@, k as nat),
            decreases self.struct_alignments@.len() - k,
        {
            proof {
                reveal(aligns_text);
            }
            let n = self.struct_alignments.name(k);
            let v: u64 = self.struct_alignments.value(k);
            out.append("# struct '");
            out.append(n);
            out.append("' aligned to ");
            push_dec(out, v);
            out.append("-byte boundary (@align(");
            push_dec(out, v);
            out.append("))\n.balign ");
            push_dec(out, v);
            out.append("\n.L");
            out.append(n);
            out.append("_align_marker:\n    .skip 0\n");
            k = k + 1;
        }
    }

    /// Compiles a program to an assembly file, or to the messages of its failed
    /// static assertions.
    #[verifier::rlimit(50)]
    pub fn compile(&mut self, program: &'a Program) -> (r: Result<String, String>)
        requires
            old(self).idle(),
            decls_ok(
                x86_target(),
                noted(old(self).env(), program_decls(*program), program_decls(*program).len()),
                old(self).state().funcs,
                program_decls(*program),
            ),
        ensures
            final(self).idle(),
            final(self).env() == noted(
                old(self).env(),
                program_decls(*program),
                program_decls(*program).len(),
            ),
            final(self).state() == program_code(
                final(self).env(),
                old(self).state(),
                program_decls(*program),
            ),
            result_text(r) == compile_result(
                final(self).env(),
                final(self).state(),
                program_decls(*program),
            ),
    {
        proof {
            reveal(fns_code);
        }
        let decls = flatten_program(program);
        self.note_decls(&decls);
        let ghost env = self.env();
        let ghost st = self.state();
        let mut k: usize = 0;
        while k < decls.len()
            invariant
                k <= decls@.len(),
                self.ok(),
                self.outside(),
                self.env() == env,
                decls_ok(self.target(), env, st.funcs, decls@),
                self.state() == fns_code(env, st, decls@, k as nat),
                any_main(st.funcs) || declares_main(decls@, k as int) ==> any_main(self.functions@),
            decreases decls@.len() - k,
        {
            proof {
                reveal(fns_code);
            }
            match decls[k] {
                TopLevel::FnDef(f) => {
                    self.compile_function(f);
                },
                _ => {},
            }
            k = k + 1;
        }
        if !self.functions.has_main() {
            self.compile_main(&decls);
        }
        if self.errors.len() > 0 {
            return Err(self.errors.join("\n"));
        }
        let out = self.generate_elf();
        let comments = dtor_comment_text(&decls);
        if comments.as_str().is_empty() {
            Ok(out)
        } else {
            Ok(insert_before_first(out.as_str(), ".section .text", comments.as_str()))
        }
    }
}

} // verus!
