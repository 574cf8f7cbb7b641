//! What the x86_64 backend emits.
//!
//! `Code` is the state of code generation; `expr_code` and `stmt_code` give
//! the state behind an expression or a statement.

use vstd::prelude::*;
use crate::ast::{
    AsmOperand, AsmStmt, Assignee, BinaryExpr, BinaryOp, CallExpr, Expr, FnDef, FnParam, ForInStmt,
    ForRangeStmt, Identifier, IfStmt, LambdaExpr, RangeExpr, Stmt, TopLevel, TryStmt, UnaryOp,
    WhileStmt,
};
use crate::cstar::raw::common::{
    break_found, bump, continue_found, down8, dtor_vars, fib_shape, frame_bytes, free_names,
    inlineable, operand_list, param_names, parts_text, plain_arg, plain_behind, VarLoc,
};
use crate::cstar::raw::limits::Target;
use crate::cstar::raw::lines::{ins1, ins1n, ins2, label_line};
use crate::cstar::raw::model::{
    any_main, assert_message, Ctx, dtor_comments, Env, float_word, Func, is_builtin, lab, list_len,
    offset_of, restored, str_label, strs_text, template_lines, three_args,
};
use crate::cstar::raw::regalloc::{allocated, AllocState, fresh_alloc, Place};
use crate::text::{byte_len, dec, insert_before, int_dec, joined, lines, repeated, sorted_set};

verus! {

/// The offset from the frame pointer below which the stack slots lie. Above it
/// there is room for `r12` and all pool registers.
pub const SLOTS_TOP: i32 = -40;

/// The state of code generation.
pub struct Code {
    /// The text of the current function.
    pub code: Seq<char>,
    /// The locations of the variables in scope.
    pub vars: Map<Seq<char>, VarLoc>,
    /// The lowest stack slot in use, or `SLOTS_TOP` where none is.
    pub off: i32,
    /// The number of pool registers in use.
    pub next: usize,
    /// The functions compiled so far.
    pub funcs: Seq<Func>,
    /// The string constants.
    pub strs: Seq<Seq<char>>,
    /// The failed static assertions.
    pub errs: Seq<Seq<char>>,
    /// The next label number.
    pub labels: usize,
    /// The next lambda number.
    pub lambdas: usize,
    /// Where `return` jumps to.
    pub epi: Option<Seq<char>>,
    /// The register allocator.
    pub alloc: AllocState,
    /// The position of the last variable definition.
    pub pos: usize,
}

impl Code {
    /// The same state with another text.
    pub open spec fn with(self, code: Seq<char>) -> Code {
        Code { code, ..self }
    }

    /// The same state with one more string constant.
    pub open spec fn intern(self, s: Seq<char>) -> Code {
        Code { strs: self.strs.push(s), ..self }
    }

    /// The same state with the label counter moved on.
    pub open spec fn labelled(self) -> Code {
        Code { labels: bump(self.labels), ..self }
    }
}

// ---------------------------------------------------------------------------
// Registers
// ---------------------------------------------------------------------------

/// The argument register `i`.
#[verifier::opaque]
pub open spec fn arg_reg(i: int) -> Seq<char> {
    if i == 0 {
        "rdi"@
    } else if i == 1 {
        "rsi"@
    } else if i == 2 {
        "rdx"@
    } else if i == 3 {
        "rcx"@
    } else if i == 4 {
        "r8"@
    } else {
        "r9"@
    }
}

/// The callee-saved register `i` of the variable pool.
#[verifier::opaque]
pub open spec fn pool_reg(i: int) -> Seq<char> {
    if i == 0 {
        "rbx"@
    } else if i == 1 {
        "r13"@
    } else if i == 2 {
        "r14"@
    } else {
        "r15"@
    }
}

/// The registers of the variable pool.
pub open spec fn pool() -> Seq<Seq<char>> {
    seq![pool_reg(0), pool_reg(1), pool_reg(2), pool_reg(3)]
}

/// The index in the pool of a register name.
#[verifier::opaque]
pub open spec fn pool_index(r: Seq<char>) -> usize {
    if r == pool_reg(0) {
        0
    } else if r == pool_reg(1) {
        1
    } else if r == pool_reg(2) {
        2
    } else if r == pool_reg(3) {
        3
    } else {
        0
    }
}

/// The register of inline assembly operand `i`.
#[verifier::opaque]
pub open spec fn scratch_reg(i: int) -> Seq<char> {
    if i == 0 {
        "rax"@
    } else if i == 1 {
        "rcx"@
    } else if i == 2 {
        "rdx"@
    } else if i == 3 {
        "rsi"@
    } else if i == 4 {
        "rdi"@
    } else if i == 5 {
        "r8"@
    } else if i == 6 {
        "r9"@
    } else if i == 7 {
        "r10"@
    } else {
        "r11"@
    }
}

/// The registers of the first `k` inline assembly operands.
pub open spec fn scratch_regs(k: nat) -> Seq<Seq<char>> {
    Seq::new(k, |i: int| scratch_reg(i))
}

// ---------------------------------------------------------------------------
// Straight-line pieces
// ---------------------------------------------------------------------------

/// Stores `src` to a stack slot.
#[verifier::opaque]
pub open spec fn store_slot(off: int, src: Seq<char>) -> Seq<char> {
    "    mov qword ptr [rbp"@ + int_dec(off) + "], "@ + src + "\n"@
}

/// Loads a stack slot into `target`.
#[verifier::opaque]
pub open spec fn load_slot(target: Seq<char>, off: int) -> Seq<char> {
    "    mov "@ + target + ", qword ptr [rbp"@ + int_dec(off) + "]\n"@
}

/// Stores `src` to a variable.
#[verifier::opaque]
pub open spec fn store_var(out: Seq<char>, loc: VarLoc, src: Seq<char>) -> Seq<char> {
    match loc {
        VarLoc::Reg(i) => out + ins2("mov"@, pool_reg(i as int), src),
        VarLoc::Stack(off) => out + store_slot(off as int, src),
    }
}

/// Stores `src` to a variable that is not in `src` already.
#[verifier::opaque]
pub open spec fn store_var_unless(out: Seq<char>, loc: VarLoc, src: Seq<char>) -> Seq<char> {
    if loc matches VarLoc::Reg(i) && pool_reg(i as int) == src {
        out
    } else {
        store_var(out, loc, src)
    }
}

/// Loads a variable into `target`.
#[verifier::opaque]
pub open spec fn load_var(out: Seq<char>, loc: VarLoc, target: Seq<char>) -> Seq<char> {
    match loc {
        VarLoc::Reg(i) => out + ins2("mov"@, target, pool_reg(i as int)),
        VarLoc::Stack(off) => out + load_slot(target, off as int),
    }
}

/// Loads a variable into `target` unless it is there already.
#[verifier::opaque]
pub open spec fn load_var_unless(out: Seq<char>, loc: VarLoc, target: Seq<char>) -> Seq<char> {
    if loc matches VarLoc::Reg(i) && pool_reg(i as int) == target {
        out
    } else {
        load_var(out, loc, target)
    }
}

/// Moves `rax` to `target` unless it is `target`.
#[verifier::opaque]
pub open spec fn mov_rax(out: Seq<char>, target: Seq<char>) -> Seq<char> {
    if target != "rax"@ {
        out + ins2("mov"@, target, "rax"@)
    } else {
        out
    }
}

/// Loads the address at `label` into `target`.
#[verifier::opaque]
pub open spec fn lea_line(target: Seq<char>, label: Seq<char>) -> Seq<char> {
    "    lea "@ + target + ", [rip + "@ + label + "]\n"@
}

/// A new string constant with its address in `target`.
pub open spec fn str_code(st: Code, target: Seq<char>, s: Seq<char>) -> Code {
    st.intern(s).with(st.code + lea_line(target, str_label(st.strs.len())))
}

/// The position twenty steps behind `n`; it wraps at the end of its range.
pub open spec fn twenty_on(n: usize) -> usize {
    if n > usize::MAX - 20 {
        (n + 20 - usize::MAX - 1) as usize
    } else {
        (n + 20) as usize
    }
}

/// The location of variable `n`, and the state in which it has one: its
/// present location, or else the register that the allocator gives it, or else
/// a new stack slot.
#[verifier::opaque]
pub open spec fn place_var(st: Code, n: Seq<char>) -> (VarLoc, Code) {
    if st.vars.contains_key(n) {
        (st.vars[n], st)
    } else {
        let pos = bump(st.pos);
        let advanced = AllocState { pos: bump(st.alloc.pos), ..st.alloc };
        let (alloc, place) = allocated(advanced, n, pos, twenty_on(pos));
        match place {
            Place::Register(r) => {
                let i = pool_index(r);
                (
                    VarLoc::Reg(i),
                    Code {
                        vars: st.vars.insert(n, VarLoc::Reg(i)),
                        next: if st.next <= i {
                            (i + 1) as usize
                        } else {
                            st.next
                        },
                        alloc,
                        pos,
                        ..st
                    },
                )
            },
            Place::Spilled(_) => (
                VarLoc::Stack(down8(st.off)),
                Code {
                    vars: st.vars.insert(n, VarLoc::Stack(down8(st.off))),
                    off: down8(st.off),
                    alloc,
                    pos,
                    ..st
                },
            ),
        }
    }
}

/// The end of a `return`: a jump to the epilogue.
#[verifier::opaque]
pub open spec fn return_jump(st: Code) -> Code {
    match st.epi {
        Some(l) => st.with(st.code + ins1("jmp"@, l)),
        None => st.with(st.code + "    ret\n"@),
    }
}

/// The suffix of the `set` instruction of a comparison.
#[verifier::opaque]
pub open spec fn cond_of(op: BinaryOp) -> Option<Seq<char>> {
    match op {
        BinaryOp::Lt => Some("l"@),
        BinaryOp::Gt => Some("g"@),
        BinaryOp::Le => Some("le"@),
        BinaryOp::Ge => Some("ge"@),
        BinaryOp::Eq => Some("e"@),
        BinaryOp::Ne => Some("ne"@),
        _ => None,
    }
}

/// The jump that is taken where a comparison does not hold.
#[verifier::opaque]
pub open spec fn skip_jump(op: BinaryOp) -> Seq<char> {
    match op {
        BinaryOp::Lt => "jnl"@,
        BinaryOp::Gt => "jng"@,
        BinaryOp::Le => "jnle"@,
        BinaryOp::Ge => "jnge"@,
        BinaryOp::Eq => "jne"@,
        _ => "je"@,
    }
}

/// The mnemonic of an operation on `rax` and one operand.
#[verifier::opaque]
pub open spec fn rax_op(op: BinaryOp) -> Option<Seq<char>> {
    match op {
        BinaryOp::Add => Some("add"@),
        BinaryOp::Sub => Some("sub"@),
        BinaryOp::Mul => Some("imul"@),
        BinaryOp::And | BinaryOp::BitAnd => Some("and"@),
        BinaryOp::Or | BinaryOp::BitOr => Some("or"@),
        BinaryOp::BitXor => Some("xor"@),
        _ => None,
    }
}

/// Sets `rax` to one where the comparison holds and to zero where it does not.
#[verifier::opaque]
pub open spec fn set_rax(out: Seq<char>, cond: Seq<char>) -> Seq<char> {
    out + "    set"@ + cond + " al\n    movzx rax, al\n"@
}

/// The operation `op` of `rax` with the constant `v`.
#[verifier::opaque]
pub open spec fn imm_op(out: Seq<char>, op: BinaryOp, v: int) -> Seq<char> {
    match op {
        BinaryOp::Div => out + ins1n("mov"@, "rcx"@, v) + "    cqo\n    idiv rcx\n"@,
        BinaryOp::Mod => out + ins1n("mov"@, "rcx"@, v)
            + "    cqo\n    idiv rcx\n    mov rax, rdx\n"@,
        BinaryOp::Shl => out + ins1n("shl"@, "rax"@, v),
        BinaryOp::Shr => out + ins1n("sar"@, "rax"@, v),
        _ => match cond_of(op) {
            Some(c) => set_rax(out + ins1n("cmp"@, "rax"@, v), c),
            None => match rax_op(op) {
                Some(m) => out + ins1n(m, "rax"@, v),
                None => out + "    mov rax, 0\n"@,
            },
        },
    }
}

/// The operation `op` of `rax` with `rcx`.
#[verifier::opaque]
pub open spec fn general_op(out: Seq<char>, op: BinaryOp) -> Seq<char> {
    match op {
        BinaryOp::Div => out + "    cqo\n    idiv rcx\n"@,
        BinaryOp::Mod => out + "    cqo\n    idiv rcx\n    mov rax, rdx\n"@,
        BinaryOp::Shl => out + "    shl rax, cl\n"@,
        BinaryOp::Shr => out + "    sar rax, cl\n"@,
        _ => match cond_of(op) {
            Some(c) => set_rax(out + "    cmp rax, rcx\n"@, c),
            None => match rax_op(op) {
                Some(m) => out + ins2(m, "rax"@, "rcx"@),
                None => out + "    mov rax, 0\n"@,
            },
        },
    }
}

/// The inlined routine that prints `rax` as a signed decimal number.
#[verifier::opaque]
pub open spec fn print_int_text(out: Seq<char>, id: nat) -> Seq<char> {
    out
        + "    # print signed int in rax (id "@ + dec(id) + ")\n"@
        + "    lea rsi, [rsp - 32]\n"@
        + "    mov r8, rax\n"@
        + "    test rax, rax\n"@
        + "    jns .Lpin_digits_"@ + dec(id) + "\n"@
        + "    neg rax\n"@
        + ".Lpin_digits_"@ + dec(id) + ":\n"@
        + "    test rax, rax\n"@
        + "    jnz .Lpin_loop_"@ + dec(id) + "\n"@
        + "    dec rsi\n"@
        + "    mov byte ptr [rsi], 48\n"@
        + "    jmp .Lpin_sign_"@ + dec(id) + "\n"@
        + ".Lpin_loop_"@ + dec(id) + ":\n"@
        + "    xor rdx, rdx\n"@
        + "    mov rcx, 10\n"@
        + "    div rcx\n"@
        + "    add dl, 48\n"@
        + "    dec rsi\n"@
        + "    mov [rsi], dl\n"@
        + "    test rax, rax\n"@
        + "    jnz .Lpin_loop_"@ + dec(id) + "\n"@
        + ".Lpin_sign_"@ + dec(id) + ":\n"@
        + "    test r8, r8\n"@
        + "    jns .Lpin_write_"@ + dec(id) + "\n"@
        + "    dec rsi\n"@
        + "    mov byte ptr [rsi], 45\n"@
        + ".Lpin_write_"@ + dec(id) + ":\n"@
        + "    lea rdx, [rsp - 32]\n"@
        + "    sub rdx, rsi\n"@
        + "    mov rax, 1\n"@
        + "    mov rdi, 1\n"@
        + "    syscall\n"@
}

/// Prints `rax` as a signed number.
pub open spec fn print_int_code(st: Code) -> Code {
    st.labelled().with(print_int_text(st.code, st.labels as nat))
}

/// Writes string constant `n`, of `len` bytes, to the standard output.
#[verifier::opaque]
pub open spec fn write_str(out: Seq<char>, n: nat, len: nat) -> Seq<char> {
    out + "    mov rax, 1\n    mov rdi, 1\n    lea rsi, [rip + .str"@ + dec(n)
        + "]\n    mov rdx, "@ + dec(len) + "\n    syscall\n"@
}

/// Writes a new string constant that holds a line feed.
pub open spec fn newline_code(st: Code) -> Code {
    st.intern("\n"@).with(write_str(st.code, st.strs.len(), 1))
}

/// Takes the innermost exception handler off the handler stack.
#[verifier::opaque]
pub open spec fn pop_handler() -> Seq<char> {
    "    mov rcx, [rip + __handler_idx]\n    dec rcx\n    mov [rip + __handler_idx], rcx\n"@
}

/// Puts the handler at `label` onto the handler stack.
#[verifier::opaque]
pub open spec fn push_handler(out: Seq<char>, label: Seq<char>) -> Seq<char> {
    out + lea_line("rax"@, label)
        + "    mov rcx, [rip + __handler_idx]\n    lea rdx, [rip + __handler_stack]\n    mov [rdx + rcx*8], rax\n    inc rcx\n    mov [rip + __handler_idx], rcx\n"@
}

/// Raises the value in `rax`.
#[verifier::opaque]
pub open spec fn raise(out: Seq<char>) -> Seq<char> {
    out + pop_handler()
        + "    lea rdx, [rip + __handler_stack]\n    mov r8, [rdx + rcx*8]\n    jmp r8\n"@
}

/// The argument register `i` of `memcpy`.
#[verifier::opaque]
pub open spec fn memcpy_reg(i: int) -> Seq<char> {
    if i == 0 {
        "rdi"@
    } else if i == 1 {
        "rsi"@
    } else {
        "rcx"@
    }
}

/// The acquire loop of `spin_lock`.
#[verifier::opaque]
pub open spec fn spin_loop(out: Seq<char>, l: Seq<char>) -> Seq<char> {
    out + label_line(l) + "    mov rcx, 1\n    xchg [rax], rcx\n    test rcx, rcx\n"@ + ins1("jnz"@, l)
        + "    mfence\n"@
}

/// The initialization of a loop over the bytes of a string, and the head of
/// each pass.
#[verifier::opaque]
pub open spec fn str_loop_head(
    out: Seq<char>,
    n: nat,
    len: nat,
    cond: Seq<char>,
    end: Seq<char>,
) -> Seq<char> {
    out + "    xor r8, r8\n    mov r9, "@ + dec(len) + "\n"@ + lea_line("r10"@, str_label(n))
        + label_line(cond) + "    cmp r8, r9\n"@ + ins1("jge"@, end)
        + "    movzx rax, byte ptr [r10 + r8]\n"@
}

/// The head of a counting loop: leaves the loop once the bound is reached in
/// the direction of the step.
#[verifier::opaque]
pub open spec fn range_head(out: Seq<char>, id: usize, loc: VarLoc, bound: i32, step: i32) -> Seq<
    char,
> {
    let end = lab(".Lfrend_"@, id);
    let o1 = out + label_line(lab(".Lfrcond_"@, id)) + load_slot("rax"@, step as int)
        + "    cmp rax, 0\n"@ + ins1("jge"@, lab(".Lfrpos_"@, id));
    let o2 = load_var(o1, loc, "rax"@) + load_slot("rcx"@, bound as int) + "    cmp rax, rcx\n"@
        + ins1("jle"@, end) + ins1("jmp"@, lab(".Lfrskip_"@, id)) + label_line(
        lab(".Lfrpos_"@, id),
    );
    load_var(o2, loc, "rax"@) + load_slot("rcx"@, bound as int) + "    cmp rax, rcx\n"@ + ins1(
        "jge"@,
        end,
    ) + label_line(lab(".Lfrskip_"@, id))
}

/// The tail of a counting loop: advances the variable by the step.
#[verifier::opaque]
pub open spec fn range_tail(out: Seq<char>, id: usize, loc: VarLoc, step: i32) -> Seq<char> {
    let o1 = out + label_line(lab(".Lfrincr_"@, id));
    let o2 = match loc {
        VarLoc::Reg(i) => o1 + load_slot("rax"@, step as int) + ins2(
            "add"@,
            pool_reg(i as int),
            "rax"@,
        ),
        VarLoc::Stack(off) => o1 + load_slot("rax"@, off as int) + load_slot("rcx"@, step as int)
            + "    add rax, rcx\n"@ + store_slot(off as int, "rax"@),
    };
    o2 + ins1("jmp"@, lab(".Lfrcond_"@, id)) + label_line(lab(".Lfrend_"@, id))
}

/// The comments in front of an inline assembly block.
#[verifier::opaque]
pub open spec fn template_comments(out: Seq<char>, a: AsmStmt) -> Seq<char> {
    let o1 = out + "    # asm block: "@ + a.template@ + "\n"@;
    let o2 = if a.outputs@.len() > 0 {
        o1 + "    # outputs:"@ + operand_list(a.outputs@, a.outputs@.len()) + "\n"@
    } else {
        o1
    };
    if a.inputs@.len() > 0 {
        o2 + "    # inputs:"@ + operand_list(a.inputs@, a.inputs@.len()) + "\n"@
    } else {
        o2
    }
}

/// Stores the first `k` output registers to the output variables.
#[verifier::opaque]
pub open spec fn store_outputs(
    out: Seq<char>,
    vars: Map<Seq<char>, VarLoc>,
    ops: Seq<AsmOperand>,
    k: nat,
) -> Seq<char>
    decreases k,
{
    if k == 0 || k > ops.len() {
        out
    } else {
        let prev = store_outputs(out, vars, ops, (k - 1) as nat);
        match ops[k - 1].expr {
            Expr::Identifier(id) => if vars.contains_key(id.name@) {
                store_var_unless(prev, vars[id.name@], scratch_reg(k - 1))
            } else {
                prev
            },
            _ => prev + "    # asm output "@ + dec((k - 1) as nat)
                + ": non-identifier output not stored\n"@,
        }
    }
}

/// Moves the first `k` parameters from the argument registers to pool
/// registers, which the allocator then holds for them, and to stack slots once
/// the pool is used up.
#[verifier::opaque]
pub open spec fn bind_args(st: Code, params: Seq<FnParam>, k: nat) -> Code
    decreases k,
{
    if k == 0 || k > params.len() {
        st
    } else {
        let prev = bind_args(st, params, (k - 1) as nat);
        let n = params[k - 1].name.name@;
        if k <= 4 {
            Code {
                code: prev.code + ins2("mov"@, pool_reg(k - 1), arg_reg(k - 1)),
                vars: prev.vars.insert(n, VarLoc::Reg((k - 1) as usize)),
                next: k as usize,
                alloc: allocated(prev.alloc, n, 0, usize::MAX).0,
                ..prev
            }
        } else {
            Code {
                code: prev.code + store_slot(down8(prev.off) as int, arg_reg(k - 1)),
                vars: prev.vars.insert(n, VarLoc::Stack(down8(prev.off))),
                off: down8(prev.off),
                ..prev
            }
        }
    }
}

/// Saves the first `k` captured variables of a lambda to its capture globals.
#[verifier::opaque]
pub open spec fn captures(st: Code, name: Seq<char>, free: Seq<Seq<char>>, k: nat) -> Code
    decreases k,
{
    if k == 0 || k > free.len() {
        st
    } else {
        let prev = captures(st, name, free, (k - 1) as nat);
        let v = free[k - 1];
        let s1 = if prev.vars.contains_key(v) {
            prev.with(load_var(prev.code, prev.vars[v], "rax"@))
        } else {
            prev.intern(v).with(prev.code + "    mov rax, [rip + _"@ + v + "]\n"@)
        };
        s1.with(s1.code + "    mov [rip + __"@ + name + "_capture_"@ + v + "], rax\n"@)
    }
}

/// The state in which the body of a new function is compiled: no text, no
/// variables, no stack, a fresh epilogue label, and a fresh allocator.
pub open spec fn enter_fn(st: Code) -> Code {
    Code { alloc: fresh_alloc(st.alloc.regs, 0), pos: 0, ..enter_main(st) }
}

/// The state in which the body of a `main` made of statements is compiled.
pub open spec fn enter_main(st: Code) -> Code {
    Code {
        code: Seq::empty(),
        vars: Map::empty(),
        off: SLOTS_TOP,
        next: 0,
        epi: Some(lab(".Lepi_"@, st.labels)),
        labels: bump(st.labels),
        ..st
    }
}

/// The lesser of a register count and the size of the pool.
pub open spec fn pool_min(n: usize) -> usize {
    if n < 4 {
        n
    } else {
        4
    }
}

/// The bytes below the frame pointer in which a function saves `r12` and
/// `saved` pool registers.
pub open spec fn saved_bytes(saved: usize) -> int {
    8 + 8 * saved
}

/// The bytes that a frame reserves below the saved registers for slots down to
/// `off`: none where no slot is in use, and else a multiple of sixteen.
pub open spec fn slot_bytes(off: i32, saved: usize) -> int {
    if off < SLOTS_TOP {
        frame_bytes(off + saved_bytes(saved), 16)
    } else {
        0
    }
}

/// The frame of a function that saves `saved` registers: a multiple of sixteen,
/// and eight more where the number of saved registers calls for it.
pub open spec fn padded_frame(off: i32, saved: usize) -> int {
    slot_bytes(off, saved) + (if saved % 2 == 0 {
        8int
    } else {
        0
    })
}

// ---------------------------------------------------------------------------
// Expressions
// ---------------------------------------------------------------------------

/// The state behind an expression whose value goes to `target`.
pub open spec fn expr_code(env: Env, ctx: Ctx, st: Code, e: Expr, target: Seq<char>) -> Code
    decreases ctx.depth, 0nat, e, 0nat,
{
    match e {
        Expr::Integer(i) => st.with(st.code + ins1n("mov"@, target, i.value as int)),
        Expr::Float(f) => st.with(st.code + ins1n("mov"@, target, float_word(f.bits) as int)),
        Expr::String_(s) => str_code(st, target, parts_text(s.parts@)),
        Expr::Binary(b) => binary_code(env, ctx, st, b, target),
        Expr::Bool(b) => st.with(
            st.code + ins1n(
                "mov"@,
                target,
                if b.value {
                    1
                } else {
                    0
                },
            ),
        ),
        Expr::Identifier(id) => if st.vars.contains_key(id.name@) {
            st.with(load_var_unless(st.code, st.vars[id.name@], target))
        } else {
            st.with(st.code + ins1n("mov"@, target, 0))
        },
        Expr::Unary(u) => {
            let s1 = expr_code(env, ctx, st, *u.operand, target);
            match u.operator {
                UnaryOp::Neg => s1.with(s1.code + ins1("neg"@, target)),
                UnaryOp::Not | UnaryOp::Bang => s1.with(s1.code + ins1n("xor"@, target, 1)),
                _ => s1,
            }
        },
        Expr::AssignExpr(x) => {
            let s1 = expr_code(env, ctx, st, *x.value, target);
            if x.targets@.len() > 0 {
                match x.targets@[0] {
                    Assignee::Identifier(id) => if s1.vars.contains_key(id.name@) {
                        s1.with(store_var_unless(s1.code, s1.vars[id.name@], target))
                    } else {
                        s1
                    },
                    _ => s1,
                }
            } else {
                s1
            }
        },
        Expr::Call(c) => call_code(env, ctx, st, c, target),
        Expr::Cast(c) => expr_code(env, ctx, st, *c.expr, target),
        Expr::Lambda(l) => lambda_code(env, ctx, st, l, target),
        Expr::TryPropagate(t) => {
            let s0 = st.with(st.code + "    # TryPropagate: evaluate expr\n"@);
            let s1 = expr_code(env, ctx, s0, *t.expr, target);
            let o = s1.code + "    # Check if error (value == 0 means error in raw mode)\n"@ + ins1n(
                "cmp"@,
                target,
                0,
            );
            match s1.epi {
                Some(l) => s1.with(o + ins1("je"@, l) + "    # Value is valid, continue\n"@),
                None => s1.with(o + "    # (no cur_epilogue — cannot propagate, continue)\n"@),
            }
        },
        _ => st.with(st.code + ins1n("mov"@, target, 0)),
    }
}

/// The state behind a binary operation.
pub open spec fn binary_code(env: Env, ctx: Ctx, st: Code, b: BinaryExpr, target: Seq<char>) -> Code
    decreases ctx.depth, 0nat, b, 0nat,
{
    match (b.operator, *b.left, *b.right) {
        (BinaryOp::Add, Expr::String_(l), Expr::String_(r)) => str_code(
            st,
            target,
            parts_text(l.parts@) + parts_text(r.parts@),
        ),
        (BinaryOp::Mul, Expr::String_(s), Expr::Integer(n)) => str_code(
            st,
            target,
            repeated(parts_text(s.parts@), (n.value as usize) as nat),
        ),
        (BinaryOp::Mul, Expr::Integer(n), Expr::String_(s)) => str_code(
            st,
            target,
            repeated(parts_text(s.parts@), (n.value as usize) as nat),
        ),
        (BinaryOp::Eq, Expr::String_(l), Expr::String_(r)) => st.with(
            st.code + ins1n(
                "mov"@,
                target,
                if parts_text(l.parts@) == parts_text(r.parts@) {
                    1
                } else {
                    0
                },
            ),
        ),
        (BinaryOp::Ne, Expr::String_(l), Expr::String_(r)) => st.with(
            st.code + ins1n(
                "mov"@,
                target,
                if parts_text(l.parts@) == parts_text(r.parts@) {
                    0
                } else {
                    1
                },
            ),
        ),
        (op, l, r) => if r is Integer {
            let s1 = expr_code(env, ctx, st, *b.left, "rax"@);
            s1.with(mov_rax(imm_op(s1.code, op, r->Integer_0.value as int), target))
        } else {
            let s1 = expr_code(env, ctx, st, *b.left, "rax"@);
            let s2 = s1.with(s1.code + "    push rax\n"@);
            let s3 = expr_code(env, ctx, s2, *b.right, "rcx"@);
            s3.with(mov_rax(general_op(s3.code + "    pop rax\n"@, op), target))
        },
    }
}

/// The register of argument `i`; `copy` selects the registers of `memcpy`.
pub open spec fn arg_target(copy: bool, i: int) -> Seq<char> {
    if copy {
        memcpy_reg(i)
    } else {
        arg_reg(i)
    }
}

/// The state behind the first `k` arguments, each in its argument register: put
/// there one by one where none of them can disturb those before it, and else
/// kept on the stack until all of them are known; `copy` selects the registers
/// of `memcpy`.
pub open spec fn args_code(env: Env, ctx: Ctx, st: Code, args: Seq<Expr>, copy: bool, k: nat) -> Code
    decreases ctx.depth, 0nat, args, args.len() + 1,
{
    if k > args.len() {
        st
    } else if plain_behind(args, k) {
        direct_args(env, ctx, st, args, copy, k)
    } else {
        let s1 = pushed_args(env, ctx, st, args, k);
        s1.with(pop_args(s1.code, copy, k))
    }
}

/// The state behind the first `k` arguments, each on the stack.
pub open spec fn pushed_args(env: Env, ctx: Ctx, st: Code, args: Seq<Expr>, k: nat) -> Code
    decreases ctx.depth, 0nat, args, k,
{
    if k == 0 || k > args.len() {
        st
    } else {
        let s1 = expr_code(
            env,
            ctx,
            pushed_args(env, ctx, st, args, (k - 1) as nat),
            args[k - 1],
            "rax"@,
        );
        s1.with(s1.code + "    push rax\n"@)
    }
}

/// Takes `k` arguments from the stack to their registers.
#[verifier::opaque]
pub open spec fn pop_args(out: Seq<char>, copy: bool, k: nat) -> Seq<char>
    decreases k,
{
    if k == 0 {
        out
    } else {
        pop_args(out + ins1("pop"@, arg_target(copy, k - 1)), copy, (k - 1) as nat)
    }
}

/// The state behind the first `k` arguments, put into their argument registers
/// one by one.
pub open spec fn direct_args(
    env: Env,
    ctx: Ctx,
    st: Code,
    args: Seq<Expr>,
    copy: bool,
    k: nat,
) -> Code
    decreases ctx.depth, 0nat, args, k,
{
    if k == 0 || k > args.len() {
        st
    } else {
        expr_code(
            env,
            ctx,
            direct_args(env, ctx, st, args, copy, (k - 1) as nat),
            args[k - 1],
            arg_target(copy, k - 1),
        )
    }
}

/// The state behind a real call of `name`.
pub open spec fn real_call(env: Env, ctx: Ctx, st: Code, name: Seq<char>, args: Seq<Expr>, target: Seq<char>) -> Code
    decreases ctx.depth, 0nat, args, args.len() + 2,
{
    let n = if args.len() < 6 {
        args.len()
    } else {
        6
    };
    let s1 = args_code(env, ctx, st, args, false, n);
    s1.with(mov_rax(s1.code + ins1("call"@, name), target))
}

/// The state behind a call.
pub open spec fn call_code(env: Env, ctx: Ctx, st: Code, c: CallExpr, target: Seq<char>) -> Code
    decreases ctx.depth, 0nat, c, 2nat,
{
    match *c.callee {
        Expr::Identifier(id) => {
            let n = id.name@;
            if is_builtin(n) {
                builtin_code(env, ctx, st, n, c, target)
            } else if ctx.depth > 0 && env.fns.contains_key(n) && inlineable(*env.fns[n])
                && env.fns[n].params@.len() == c.args@.len() {
                inline_code(
                    env,
                    Ctx { depth: (ctx.depth - 1) as nat, ..ctx },
                    st,
                    *env.fns[n],
                    c,
                    target,
                )
            } else {
                real_call(env, ctx, st, n, c.args@, target)
            }
        },
        Expr::MemberAccess(m) => {
            let n = m.member.name@;
            if n == "load"@ {
                expr_code(env, ctx, st.with(st.code + "    # volatile load\n"@), *m.target, target)
            } else if n == "load_acquire"@ {
                let s1 = expr_code(
                    env,
                    ctx,
                    st.with(st.code + "    # volatile load (acquire)\n"@),
                    *m.target,
                    target,
                );
                s1.with(s1.code + "    # load_acquire — acquire fence\n    mfence\n"@)
            } else if n == "store"@ {
                arg_code(
                    env,
                    ctx,
                    st.with(st.code + "    # volatile store\n"@),
                    c.args@,
                    0,
                    target,
                )
            } else if n == "store_release"@ {
                arg_code(
                    env,
                    ctx,
                    st.with(
                        st.code
                            + "    # volatile store (release)\n    # store_release — release fence\n    mfence\n"@,
                    ),
                    c.args@,
                    0,
                    target,
                )
            } else {
                expr_code(env, ctx, st, *m.target, target)
            }
        },
        _ => st.with(st.code + ins1n("mov"@, target, 0)),
    }
}

/// The state behind argument `i`, where there is one.
pub open spec fn arg_code(env: Env, ctx: Ctx, st: Code, args: Seq<Expr>, i: int, target: Seq<char>) -> Code
    decreases ctx.depth, 0nat, args, 0nat,
{
    if 0 <= i < args.len() {
        expr_code(env, ctx, st, args[i], target)
    } else {
        st
    }
}

/// The state behind a call of a built-in.
pub open spec fn builtin_code(
    env: Env,
    ctx: Ctx,
    st: Code,
    n: Seq<char>,
    c: CallExpr,
    target: Seq<char>,
) -> Code
    decreases ctx.depth, 0nat, c, 1nat,
{
    if n == "memcpy"@ {
        let s1 = args_code(env, ctx, st, c.args@, true, three_args(c.args@));
        let o = s1.code + "    push rax\n    rep movsb\n    pop rax\n"@;
        s1.with(
            if target != "rdi"@ {
                o + ins2("mov"@, target, "rdi"@)
            } else {
                o
            },
        )
    } else if n == "memset"@ {
        let s1 = arg_code(env, ctx, st, c.args@, 0, "rdi"@);
        let s2 = arg_code(env, ctx, s1, c.args@, 1, "rax"@);
        let s3 = arg_code(env, ctx, s2, c.args@, 2, "rcx"@);
        s3.with(mov_rax(s3.code + "    cld\n    rep stosb\n"@, target))
    } else if n == "spin_lock"@ {
        let s1 = arg_code(env, ctx, st, c.args@, 0, "rax"@);
        s1.labelled().with(spin_loop(s1.code, lab(".Lspinlock_"@, s1.labels)))
    } else if n == "spin_unlock"@ {
        let s1 = arg_code(env, ctx, st, c.args@, 0, "rax"@);
        s1.with(s1.code + "    mfence\n    mov qword ptr [rax], 0\n"@)
    } else if n == "tls_get"@ {
        let s1 = arg_code(env, ctx, st, c.args@, 0, "rcx"@);
        s1.with(mov_rax(s1.code + "    mov rax, [fs:rcx]\n"@, target))
    } else if n == "tls_set"@ {
        let s1 = arg_code(env, ctx, st, c.args@, 0, "rcx"@);
        let s2 = arg_code(env, ctx, s1, c.args@, 1, "rax"@);
        s2.with(mov_rax(s2.code + "    mov [fs:rcx], rax\n"@, target))
    } else if n == "offsetof"@ {
        if c.args@.len() >= 2 && c.args@[0] is String_ && c.args@[1] is String_ {
            st.with(
                st.code + ins1n(
                    "mov"@,
                    target,
                    offset_of(
                        env,
                        parts_text(c.args@[0]->String__0.parts@),
                        parts_text(c.args@[1]->String__0.parts@),
                    ) as int,
                ),
            )
        } else {
            st.with(st.code + ins1n("mov"@, target, 0))
        }
    } else if n == "static_assert"@ {
        if c.args@.len() >= 1 && c.args@[0] is Integer && c.args@[0]->Integer_0.value == 0 {
            Code { errs: st.errs.push(assert_message(c.args@)), ..st }
        } else {
            st
        }
    } else {
        st.with(mov_rax(st.code + "    rdtsc\n    shl rdx, 32\n    or rax, rdx\n"@, target))
    }
}

/// Binds the first `k` parameters of an inlined function to pool registers.
/// The flag says whether there was a register for each of them; where there
/// was none, the state is the one in front of the parameter without register.
pub open spec fn bind_params(env: Env, ctx: Ctx, st: Code, f: FnDef, c: CallExpr, k: nat) -> (
    Code,
    bool,
)
    decreases ctx.depth, 3nat, c, k,
{
    if k == 0 || k > f.params@.len() || k > c.args@.len() {
        (st, true)
    } else {
        let prev = bind_params(env, ctx, st, f, c, (k - 1) as nat);
        if !prev.1 {
            prev
        } else {
            let s1 = expr_code(env, ctx, prev.0, c.args@[k - 1], "rax"@);
            if s1.next >= 4 {
                (s1, false)
            } else {
                (
                    Code {
                        code: s1.code + ins2("mov"@, pool_reg(s1.next as int), "rax"@),
                        vars: s1.vars.insert(
                            f.params@[k - 1].name.name@,
                            VarLoc::Reg(s1.next),
                        ),
                        next: (s1.next + 1) as usize,
                        ..s1
                    },
                    true,
                )
            }
        }
    }
}

/// The state behind an inlined call, or behind a real call where the pool has
/// no register left for a parameter.
pub open spec fn inline_code(
    env: Env,
    ctx: Ctx,
    st: Code,
    f: FnDef,
    c: CallExpr,
    target: Seq<char>,
) -> Code
    decreases ctx.depth, 4nat, c, 0nat,
{
    let params = f.params@;
    let end = lab(".Linl_"@, st.labels);
    let bound = bind_params(
        env,
        ctx,
        Code { epi: Some(end), ..st.labelled() },
        f,
        c,
        params.len(),
    );
    let s1 = bound.0;
    if !bound.1 {
        let s2 = Code {
            next: st.next,
            vars: restored(s1.vars, st.vars, params, params.len()),
            ..s1
        };
        let s3 = real_call(env, ctx, s2, f.name.name@, c.args@, target);
        Code { epi: st.epi, ..s3 }
    } else {
        let s2 = stmts_code(env, ctx, s1, f.body@, f.body@.len());
        Code {
            code: mov_rax(s2.code + label_line(end), target),
            epi: st.epi,
            vars: restored(s2.vars, st.vars, params, params.len()),
            ..s2
        }
    }
}

/// The state behind a lambda: a new function, and its address in `target`.
pub open spec fn lambda_code(env: Env, ctx: Ctx, st: Code, l: LambdaExpr, target: Seq<char>) -> Code
    decreases ctx.depth, 0nat, l, 0nat,
{
    let name = lab("__lambda_"@, st.lambdas);
    let free = sorted_set(free_names(*l.body, param_names(l.params@)));
    let s1 = captures(Code { lambdas: bump(st.lambdas), ..st }, name, free, free.len());
    let epilogue = lab(".Lepi_"@, s1.labels);
    let s2 = bind_args(enter_fn(s1), l.params@, l.params@.len());
    let s3 = return_jump(expr_code(env, ctx, s2, *l.body, "rax"@));
    let s4 = s3.with(s3.code + "    mov rax, 0\n"@ + ins1("jmp"@, epilogue));
    let saved = pool_min(s4.next);
    Code {
        code: s1.code + lea_line(target, name),
        vars: s1.vars,
        off: s1.off,
        next: s1.next,
        epi: None,
        funcs: s4.funcs.push(
            Func {
                name,
                code: s4.code,
                is_main: false,
                saved,
                frame: padded_frame(s4.off, saved),
                epilogue,
            },
        ),
        ..s4
    }
}

// ---------------------------------------------------------------------------
// Statements
// ---------------------------------------------------------------------------

/// The state behind the first `k` statements.
pub open spec fn stmts_code(env: Env, ctx: Ctx, st: Code, ss: Seq<Stmt>, k: nat) -> Code
    decreases ctx.depth, 3nat, ss, k,
{
    if k == 0 || k > ss.len() {
        st
    } else {
        stmt_code(env, ctx, stmts_code(env, ctx, st, ss, (k - 1) as nat), ss[k - 1])
    }
}

/// The state behind a statement.
pub open spec fn stmt_code(env: Env, ctx: Ctx, st: Code, s: Stmt) -> Code
    decreases ctx.depth, 3nat, s, 0nat,
{
    match s {
        Stmt::Assign(x) => if x.targets@.len() > 0 {
            match x.targets@[0] {
                Assignee::Identifier(id) => {
                    let (loc, s1) = place_var(st, id.name@);
                    let s2 = expr_code(env, ctx, s1, x.value, "rax"@);
                    s2.with(store_var(s2.code, loc, "rax"@))
                },
                _ => st,
            }
        } else {
            st
        },
        Stmt::Return(r) => return_jump(
            if r.values@.len() > 0 {
                expr_code(env, ctx, st, r.values@[0], "rax"@)
            } else {
                st.with(st.code + "    mov rax, 0\n"@)
            },
        ),
        Stmt::If(i) => if_code(env, ctx, st, i),
        Stmt::While(w) => while_code(env, ctx, st, w),
        Stmt::Loop(l) => {
            let start = lab(".Lloop_"@, st.labels);
            let end = lab(".Lloopend_"@, st.labels);
            let s1 = st.labelled().with(st.code + label_line(start));
            let s2 = stmts_code(
                env,
                Ctx { loops: ctx.loops.push((start, end)), ..ctx },
                s1,
                l.body@,
                l.body@.len(),
            );
            s2.with(s2.code + ins1("jmp"@, start) + label_line(end))
        },
        Stmt::Break(b) => st.with(break_text(st.code, ctx.loops, b.label)),
        Stmt::Continue(c) => st.with(continue_text(st.code, ctx.loops, c.label)),
        Stmt::ForRange(fr) => for_range_code(env, ctx, st, fr),
        Stmt::ForIn(fi) => for_in_code(env, ctx, st, fi),
        Stmt::Expr(e) => expr_code(env, ctx, st, e.expr, "rax"@),
        Stmt::Println(p) => newline_code(print_args(env, ctx, st, p.args@, p.args@.len())),
        Stmt::UnsafeBlock(u) => stmts_code(env, ctx, st, u.body@, u.body@.len()),
        Stmt::Asm(x) => asm_code(env, ctx, st, x),
        Stmt::Try(t) => try_code(env, ctx, st, t),
        Stmt::Throw(t) => {
            let s1 = expr_code(env, ctx, st, t.value, "rax"@);
            s1.with(raise(s1.code))
        },
        Stmt::Panic(p) => {
            let s1 = expr_code(env, ctx, st, p.message, "rax"@);
            s1.with(raise(s1.code))
        },
        _ => st,
    }
}

/// The jump of a `break`.
#[verifier::opaque]
pub open spec fn break_text(
    out: Seq<char>,
    loops: Seq<(Seq<char>, Seq<char>)>,
    label: Option<Identifier>,
) -> Seq<char> {
    match label {
        Some(l) => {
            let t = ".Lbreak_lbl_"@ + l.name@;
            if break_found(loops, t, l.name@) {
                out + ins1("jmp"@, t)
            } else {
                out + "    # break '"@ + l.name@
                    + "' — label not found (no enclosing loop matches)\n"@
            }
        },
        None => if loops.len() > 0 {
            out + ins1("jmp"@, loops.last().1)
        } else {
            out + "    # break outside loop (no-op)\n"@
        },
    }
}

/// The jump of a `continue`.
#[verifier::opaque]
pub open spec fn continue_text(
    out: Seq<char>,
    loops: Seq<(Seq<char>, Seq<char>)>,
    label: Option<Identifier>,
) -> Seq<char> {
    match label {
        Some(l) => {
            let t = ".Lcont_lbl_"@ + l.name@;
            if continue_found(loops, t, l.name@) {
                out + ins1("jmp"@, t)
            } else {
                out + "    # continue '"@ + l.name@ + "' — label not found\n"@
            }
        },
        None => if loops.len() > 0 {
            out + ins1("jmp"@, loops.last().0)
        } else {
            out + "    # continue outside loop (no-op)\n"@
        },
    }
}

/// The state behind the condition of an `if`, with a jump to `skip` where it
/// does not hold.
pub open spec fn cond_code(env: Env, ctx: Ctx, st: Code, e: Expr, skip: Seq<char>) -> Code
    decreases ctx.depth, 2nat, e, 0nat,
{
    match e {
        Expr::Binary(b) => match cond_of(b.operator) {
            Some(c) => {
                let s1 = expr_code(env, ctx, st, *b.left, "rax"@);
                let s2 = match *b.right {
                    Expr::Integer(i) => s1.with(
                        s1.code + ins1n("cmp"@, "rax"@, i.value as int),
                    ),
                    _ => if plain_arg(*b.right) {
                        let s2 = expr_code(env, ctx, s1, *b.right, "rcx"@);
                        s2.with(s2.code + "    cmp rax, rcx\n"@)
                    } else {
                        let s2 = s1.with(s1.code + "    push rax\n"@);
                        let s3 = expr_code(env, ctx, s2, *b.right, "rcx"@);
                        s3.with(s3.code + "    pop rax\n"@ + "    cmp rax, rcx\n"@)
                    },
                };
                s2.with(s2.code + ins1(skip_jump(b.operator), skip))
            },
            None => plain_cond(env, ctx, st, e, skip),
        },
        _ => plain_cond(env, ctx, st, e, skip),
    }
}

/// The state behind a condition that is compared with zero.
pub open spec fn plain_cond(env: Env, ctx: Ctx, st: Code, e: Expr, skip: Seq<char>) -> Code
    decreases ctx.depth, 1nat, e, 0nat,
{
    let s1 = expr_code(env, ctx, st, e, "rax"@);
    s1.with(s1.code + "    cmp rax, 0\n"@ + ins1("je"@, skip))
}

/// The state behind an `if`.
pub open spec fn if_code(env: Env, ctx: Ctx, st: Code, i: IfStmt) -> Code
    decreases ctx.depth, 3nat, i, 0nat,
{
    let skip = lab(".Lelse_"@, st.labels);
    let end = lab(".Lend_"@, st.labels);
    let s1 = cond_code(env, ctx, st.labelled(), i.condition, skip);
    let s2 = stmts_code(env, ctx, s1, i.then_body@, i.then_body@.len());
    let s3 = s2.with(s2.code + ins1("jmp"@, end) + label_line(skip));
    let s4 = match i.else_body {
        Some(b) => stmts_code(env, ctx, s3, b@, b@.len()),
        None => s3,
    };
    s4.with(s4.code + label_line(end))
}

/// The state behind a `while`.
pub open spec fn while_code(env: Env, ctx: Ctx, st: Code, w: WhileStmt) -> Code
    decreases ctx.depth, 3nat, w, 0nat,
{
    let start = lab(".Lwhile_"@, st.labels);
    let end = lab(".Lwend_"@, st.labels);
    let inner = Ctx { loops: ctx.loops.push((start, end)), ..ctx };
    let s1 = expr_code(
        env,
        inner,
        st.labelled().with(st.code + label_line(start)),
        w.condition,
        "rax"@,
    );
    let s2 = s1.with(s1.code + "    cmp rax, 0\n"@ + ins1("je"@, end));
    let s3 = stmts_code(env, inner, s2, w.body@, w.body@.len());
    s3.with(s3.code + ins1("jmp"@, start) + label_line(end))
}

/// The state behind an optional expression; zero stands for a missing one.
pub open spec fn opt_code(env: Env, ctx: Ctx, st: Code, e: Option<Box<Expr>>, target: Seq<char>) -> Code
    decreases ctx.depth, 1nat, e, 0nat,
{
    match e {
        Some(x) => expr_code(env, ctx, st, *x, target),
        None => st.with(st.code + ins1n("mov"@, target, 0)),
    }
}

/// The state behind the step of a counting loop, stored to `slot`; one stands
/// for a missing step.
pub open spec fn step_code(env: Env, ctx: Ctx, st: Code, e: Option<Box<Expr>>, slot: i32) -> Code
    decreases ctx.depth, 1nat, e, 0nat,
{
    let s1 = match e {
        Some(x) => expr_code(env, ctx, st, *x, "rax"@),
        None => st.with(st.code + "    mov rax, 1\n"@),
    };
    s1.with(s1.code + store_slot(slot as int, "rax"@))
}

/// The state in front of a counting loop's bounds: a label number and two
/// stack slots.
pub open spec fn range_entry(st: Code) -> Code {
    Code { off: down8(down8(st.off)), ..st.labelled() }
}

/// The context of the body of counting loop `id`.
pub open spec fn range_ctx(ctx: Ctx, id: usize) -> Ctx {
    Ctx { loops: ctx.loops.push((lab(".Lfrincr_"@, id), lab(".Lfrend_"@, id))), ..ctx }
}

/// The state behind a counting loop.
pub open spec fn for_range_code(env: Env, ctx: Ctx, st: Code, fr: ForRangeStmt) -> Code
    decreases ctx.depth, 3nat, fr, 0nat,
{
    let id = st.labels;
    let bound = down8(st.off);
    let step = down8(bound);
    let s1 = expr_code(env, ctx, range_entry(st), fr.from, "rax"@);
    let (loc, s2) = place_var(s1, fr.var.name@);
    let s3 = expr_code(env, ctx, s2.with(store_var(s2.code, loc, "rax"@)), fr.to, "rax"@);
    let s4 = s3.with(s3.code + store_slot(bound as int, "rax"@));
    let s5 = step_code(env, ctx, s4, fr.step, step);
    let s6 = s5.with(range_head(s5.code, id, loc, bound, step));
    let s7 = stmts_code(env, range_ctx(ctx, id), s6, fr.body@, fr.body@.len());
    s7.with(range_tail(s7.code, id, loc, step))
}

/// The state behind a for-in loop.
pub open spec fn for_in_code(env: Env, ctx: Ctx, st: Code, fi: ForInStmt) -> Code
    decreases ctx.depth, 3nat, fi, list_len(fi.iterable) + 1,
{
    match fi.iterable {
        Expr::String_(s) => str_loop_code(env, ctx, st, fi, parts_text(s.parts@)),
        Expr::Range(r) => range_loop_code(env, ctx, st, fi, r),
        Expr::List(l) => unrolled(env, ctx, st, fi, l.elements@.len()),
        _ => st.with(st.code + "    # for-in: unsupported iterable type in raw mode\n"@),
    }
}

/// The state behind a loop over the bytes of the string `t`.
pub open spec fn str_loop_code(env: Env, ctx: Ctx, st: Code, fi: ForInStmt, t: Seq<char>) -> Code
    decreases ctx.depth, 3nat, fi, 0nat,
{
    let cond = lab(".Lfistrcond_"@, st.labels);
    let end = lab(".Lfistrend_"@, st.labels);
    let (loc, s1) = place_var(st.intern(t).labelled(), fi.var.name@);
    let o = str_loop_head(s1.code, st.strs.len(), byte_len(t) as nat, cond, end);
    let s3 = stmts_code(
        env,
        Ctx { loops: ctx.loops.push((cond, end)), ..ctx },
        s1.with(store_var(o, loc, "rax"@)),
        fi.body@,
        fi.body@.len(),
    );
    s3.with(s3.code + "    inc r8\n"@ + ins1("jmp"@, cond) + label_line(end))
}

/// The state behind a loop over a range expression.
pub open spec fn range_loop_code(env: Env, ctx: Ctx, st: Code, fi: ForInStmt, r: RangeExpr) -> Code
    decreases ctx.depth, 3nat, fi, 0nat,
{
    let id = st.labels;
    let bound = down8(st.off);
    let step = down8(bound);
    let s1 = opt_code(env, ctx, range_entry(st), r.start, "rax"@);
    let (loc, s2) = place_var(s1, fi.var.name@);
    let s3 = opt_code(env, ctx, s2.with(store_var(s2.code, loc, "rax"@)), r.end, "rax"@);
    let s4 = s3.with(s3.code + store_slot(bound as int, "rax"@));
    let s5 = step_code(env, ctx, s4, r.step, step);
    let s6 = s5.with(range_head(s5.code, id, loc, bound, step));
    let s7 = stmts_code(env, range_ctx(ctx, id), s6, fi.body@, fi.body@.len());
    s7.with(range_tail(s7.code, id, loc, step))
}

/// The state behind the first `k` passes of a loop over a list literal.
pub open spec fn unrolled(env: Env, ctx: Ctx, st: Code, fi: ForInStmt, k: nat) -> Code
    decreases ctx.depth, 3nat, fi, k,
{
    let elems = fi.iterable->List_0.elements@;
    if k == 0 || k > list_len(fi.iterable) {
        st
    } else {
        let prev = unrolled(env, ctx, st, fi, (k - 1) as nat);
        let s1 = expr_code(env, ctx, prev, elems[k - 1], "rax"@);
        let (loc, s2) = place_var(s1, fi.var.name@);
        stmts_code(
            env,
            ctx,
            s2.with(store_var(s2.code, loc, "rax"@)),
            fi.body@,
            fi.body@.len(),
        )
    }
}

/// The state behind the first `k` printed values.
pub open spec fn print_args(env: Env, ctx: Ctx, st: Code, args: Seq<Expr>, k: nat) -> Code
    decreases ctx.depth, 1nat, args, k,
{
    if k == 0 || k > args.len() {
        st
    } else {
        let prev = print_args(env, ctx, st, args, (k - 1) as nat);
        match args[k - 1] {
            Expr::String_(s) => {
                let t = parts_text(s.parts@);
                prev.intern(t).with(write_str(prev.code, prev.strs.len(), byte_len(t) as nat))
            },
            _ => print_int_code(expr_code(env, ctx, prev, args[k - 1], "rax"@)),
        }
    }
}

/// The state behind the first `k` inline assembly inputs, each in its operand
/// register; `base` operands come first.
pub open spec fn inputs_code(env: Env, ctx: Ctx, st: Code, ops: Seq<AsmOperand>, base: nat, k: nat) -> Code
    decreases ctx.depth, 1nat, ops, k,
{
    if k == 0 || k > ops.len() {
        st
    } else {
        expr_code(
            env,
            ctx,
            inputs_code(env, ctx, st, ops, base, (k - 1) as nat),
            ops[k - 1].expr,
            scratch_reg(base + k - 1),
        )
    }
}

/// The state behind an inline assembly block.
pub open spec fn asm_code(env: Env, ctx: Ctx, st: Code, x: AsmStmt) -> Code
    decreases ctx.depth, 2nat, x, 0nat,
{
    let outs = x.outputs@;
    let ins = x.inputs@;
    let total = outs.len() + ins.len();
    let o1 = template_comments(st.code, x);
    let ls = lines(x.template@);
    if total > 9 {
        st.with(
            o1 + "    # too many operands ("@ + dec(total)
                + " > 9); emitting template verbatim\n"@ + template_lines(ls, None, ls.len()),
        )
    } else {
        let s1 = inputs_code(env, ctx, st.with(o1), ins, outs.len(), ins.len());
        let o2 = s1.code + template_lines(ls, Some(scratch_regs(total)), ls.len());
        s1.with(store_outputs(o2, s1.vars, outs, outs.len()))
    }
}

/// The state behind the statements of an optional block.
pub open spec fn block_code(env: Env, ctx: Ctx, st: Code, b: Option<Vec<Stmt>>) -> Code
    decreases ctx.depth, 3nat, b, 0nat,
{
    match b {
        Some(v) => stmts_code(env, ctx, st, v@, v@.len()),
        None => st,
    }
}

/// The state behind a `try`.
pub open spec fn try_code(env: Env, ctx: Ctx, st: Code, t: TryStmt) -> Code
    decreases ctx.depth, 3nat, t, 0nat,
{
    let catch_label = lab(".Lcatch_"@, st.labels);
    let end = lab(".Ltryend_"@, st.labels);
    let s1 = stmts_code(
        env,
        ctx,
        st.labelled().with(push_handler(st.code, catch_label)),
        t.try_body@,
        t.try_body@.len(),
    );
    let s2 = block_code(env, ctx, s1.with(s1.code + pop_handler()), t.finally_body);
    let s3 = s2.with(s2.code + ins1("jmp"@, end) + label_line(catch_label) + pop_handler());
    let s4 = match t.catch_var {
        Some(v) => {
            let (loc, s) = place_var(s3, v.name@);
            s.with(store_var(s.code, loc, "rax"@))
        },
        None => s3,
    };
    let s5 = block_code(env, ctx, s4, t.catch_body);
    let s6 = block_code(env, ctx, s5, t.finally_body);
    s6.with(s6.code + label_line(end))
}

// ---------------------------------------------------------------------------
// Functions and programs
// ---------------------------------------------------------------------------

/// The context of a function body.
pub open spec fn top_ctx() -> Ctx {
    Ctx { depth: 3, loops: Seq::empty() }
}

/// The loop that stands for a doubly recursive Fibonacci function.
#[verifier::opaque]
pub open spec fn fib_text(epi: Seq<char>, n: usize) -> Seq<char> {
    let l = lab(".Lfib_loop_"@, n);
    let done = lab(".Lfib_done_"@, n);
    let base = lab(".Lfib_base_"@, n);
    Seq::<char>::empty() + "    mov rax, rdi\n    cmp rax, 1\n"@ + ins1("jle"@, base)
        + "    xor rcx, rcx\n    mov rdx, 1\n    mov r8, 2\n"@ + label_line(l)
        + "    cmp r8, rax\n"@ + ins1("jg"@, done)
        + "    lea r9, [rcx + rdx]\n    mov rcx, rdx\n    mov rdx, r9\n    inc r8\n"@ + ins1(
        "jmp"@,
        l,
    ) + label_line(done) + "    mov rax, rdx\n"@ + ins1("jmp"@, epi) + label_line(base)
        + "    mov rax, rdi\n"@ + ins1("jmp"@, epi)
}

/// The state behind the destructor calls of the first `k` variables.
#[verifier::opaque]
pub open spec fn dtors_code(env: Env, st: Code, vars: Seq<(Seq<char>, Seq<char>)>, k: nat) -> Code
    decreases k,
{
    if k == 0 || k > vars.len() {
        st
    } else {
        let prev = dtors_code(env, st, vars, (k - 1) as nat);
        let t = vars[k - 1].1;
        let s1 = prev.with(
            prev.code + "    # dtor: calling ~"@ + t + " for "@ + vars[k - 1].0 + "\n"@,
        );
        if env.dtors.contains_key(t) {
            stmts_code(env, top_ctx(), s1, env.dtors[t].body@, env.dtors[t].body@.len())
        } else {
            s1
        }
    }
}

/// The label that the body of `f` leaves by: that of its destructors, or else
/// its epilogue.
pub open spec fn exit_label(env: Env, st: Code, f: FnDef) -> Seq<char> {
    if dtor_vars(env.dtors.dom(), f.body@, f.body@.len()).len() == 0 {
        lab(".Lepi_"@, st.labels)
    } else {
        lab(".Lcleanup_"@, enter_fn(st).labels)
    }
}

/// The state in which the statements of `f` are compiled.
pub open spec fn body_entry(env: Env, st: Code, f: FnDef) -> Code {
    let s0 = enter_fn(st);
    let s1 = if dtor_vars(env.dtors.dom(), f.body@, f.body@.len()).len() == 0 {
        s0
    } else {
        Code { epi: Some(exit_label(env, st, f)), ..s0.labelled() }
    };
    if f.name.name@ == "main"@ {
        s1
    } else {
        bind_args(s1, f.params@, f.params@.len())
    }
}

/// The state in which the body of `f` has been compiled, with its destructor
/// calls and its jumps to the epilogue.
pub open spec fn fn_body(env: Env, st: Code, f: FnDef) -> Code {
    let epilogue = lab(".Lepi_"@, st.labels);
    let vars = dtor_vars(env.dtors.dom(), f.body@, f.body@.len());
    let exit = exit_label(env, st, f);
    let s2 = body_entry(env, st, f);
    let s3 = stmts_code(env, top_ctx(), s2, f.body@, f.body@.len());
    let s4 = s3.with(s3.code + "    mov rax, 0\n"@ + ins1("jmp"@, exit));
    if vars.len() == 0 {
        s4
    } else {
        let s5 = dtors_code(
            env,
            Code { epi: Some(epilogue), ..s4.with(s4.code + label_line(exit)) },
            vars,
            vars.len(),
        );
        s5.with(s5.code + ins1("jmp"@, epilogue))
    }
}

/// The state behind a function definition.
pub open spec fn fn_code(env: Env, st: Code, f: FnDef) -> Code {
    let main = f.name.name@ == "main"@;
    let epilogue = lab(".Lepi_"@, st.labels);
    if !main && fib_shape(f) {
        let n = bump(st.labels);
        Code {
            labels: bump(n),
            funcs: st.funcs.push(
                Func {
                    name: f.name.name@,
                    code: fib_text(epilogue, n),
                    is_main: false,
                    saved: 0,
                    frame: 0,
                    epilogue,
                },
            ),
            ..st
        }
    } else {
        let s = fn_body(env, st, f);
        let saved = if main {
            0
        } else {
            pool_min(s.next)
        };
        Code {
            code: st.code,
            vars: st.vars,
            off: st.off,
            next: st.next,
            epi: None,
            funcs: s.funcs.push(
                Func {
                    name: f.name.name@,
                    code: s.code,
                    is_main: main,
                    saved,
                    frame: padded_frame(s.off, saved),
                    epilogue,
                },
            ),
            ..s
        }
    }
}

/// The state behind the function definitions among the first `k` declarations.
#[verifier::opaque]
pub open spec fn fns_code(env: Env, st: Code, decls: Seq<&TopLevel>, k: nat) -> Code
    decreases k,
{
    if k == 0 || k > decls.len() {
        st
    } else {
        let prev = fns_code(env, st, decls, (k - 1) as nat);
        match *decls[k - 1] {
            TopLevel::FnDef(f) => fn_code(env, prev, f),
            _ => prev,
        }
    }
}

/// The state behind the statements among the first `k` declarations.
#[verifier::opaque]
pub open spec fn top_code(env: Env, st: Code, decls: Seq<&TopLevel>, k: nat) -> Code
    decreases k,
{
    if k == 0 || k > decls.len() {
        st
    } else {
        let prev = top_code(env, st, decls, (k - 1) as nat);
        match *decls[k - 1] {
            TopLevel::Statement(s) => stmt_code(env, top_ctx(), prev, s),
            _ => prev,
        }
    }
}

/// The state behind a `main` made of the program's statements.
pub open spec fn main_code(env: Env, st: Code, decls: Seq<&TopLevel>) -> Code {
    let s1 = top_code(env, enter_main(st), decls, decls.len());
    let s2 = s1.with(s1.code + "    mov rax, 60\n    mov rdi, 0\n    syscall\n"@);
    Code {
        code: st.code,
        vars: st.vars,
        off: st.off,
        next: st.next,
        epi: None,
        funcs: s2.funcs.push(
            Func {
                name: "main"@,
                code: s2.code,
                is_main: true,
                saved: pool_min(s2.next),
                frame: slot_bytes(s2.off, pool_min(s2.next)),
                epilogue: lab(".Lepi_"@, st.labels),
            },
        ),
        ..s2
    }
}

/// The state behind a whole program.
pub open spec fn program_code(env: Env, st: Code, decls: Seq<&TopLevel>) -> Code {
    let s = fns_code(env, st, decls, decls.len());
    if any_main(s.funcs) {
        s
    } else {
        main_code(env, s, decls)
    }
}

// ---------------------------------------------------------------------------
// The assembly file
// ---------------------------------------------------------------------------

/// Pushes the first `k` pool registers.
#[verifier::opaque]
pub open spec fn save_regs(out: Seq<char>, k: nat) -> Seq<char>
    decreases k,
{
    if k == 0 {
        out
    } else {
        save_regs(out, (k - 1) as nat) + ins1("push"@, pool_reg(k - 1))
    }
}

/// Pops the first `k` pool registers, in reverse.
#[verifier::opaque]
pub open spec fn restore_regs(out: Seq<char>, k: nat) -> Seq<char>
    decreases k,
{
    if k == 0 {
        out
    } else {
        restore_regs(out + ins1("pop"@, pool_reg(k - 1)), (k - 1) as nat)
    }
}

/// The entry sequence of a function.
#[verifier::opaque]
pub open spec fn prologue(out: Seq<char>, f: Func) -> Seq<char> {
    let o = save_regs(
        out + label_line(f.name) + "    push rbp\n    mov rbp, rsp\n    push r12\n"@,
        f.saved as nat,
    );
    if f.frame > 0 {
        o + "    sub rsp, "@ + dec(f.frame as nat) + "\n"@
    } else {
        o
    }
}

/// The exit sequence of a function.
#[verifier::opaque]
pub open spec fn epilogue_text(out: Seq<char>, f: Func) -> Seq<char> {
    let o = out + label_line(f.epilogue);
    restore_regs(
        if f.frame > 0 {
            o + "    add rsp, "@ + dec(f.frame as nat) + "\n"@
        } else {
            o
        },
        f.saved as nat,
    ) + "    pop r12\n    pop rbp\n    ret\n\n"@
}

/// The first `k` functions.
#[verifier::opaque]
pub open spec fn fns_text(out: Seq<char>, funcs: Seq<Func>, k: nat) -> Seq<char>
    decreases k,
{
    if k == 0 || k > funcs.len() {
        out
    } else {
        epilogue_text(
            prologue(fns_text(out, funcs, (k - 1) as nat), funcs[k - 1]) + funcs[k - 1].code,
            funcs[k - 1],
        )
    }
}

/// The alignment markers of the first `k` aligned structs.
#[verifier::opaque]
pub open spec fn aligns_text(out: Seq<char>, aligns: Seq<(Seq<char>, u64)>, k: nat) -> Seq<char>
    decreases k,
{
    if k == 0 || k > aligns.len() {
        out
    } else {
        let n = aligns[k - 1].0;
        let v = dec(aligns[k - 1].1 as nat);
        aligns_text(out, aligns, (k - 1) as nat) + "# struct '"@ + n + "' aligned to "@ + v
            + "-byte boundary (@align("@ + v + "))\n.balign "@ + v + "\n.L"@ + n
            + "_align_marker:\n    .skip 0\n"@
    }
}

/// The head of the file: comments, and the entry point.
#[verifier::opaque]
pub open spec fn file_head() -> Seq<char> {
    Seq::<char>::empty()
        + ".intel_syntax noprefix\n# Vredrs raw-mode x86_64 native output\n# Generated by vredrs build --raw\n# No GC, no scheduler, no reflection — zero overhead.\n\n"@
        + ".section .text\n.globl _start\n\n_start:\n    xor rbp, rbp\n    call main\n    mov rdi, rax\n    mov rax, 60\n    syscall\n\n"@
}

/// The assembly file of a compiled program.
pub open spec fn elf_text(env: Env, st: Code) -> Seq<char> {
    let o1 = fns_text(file_head(), st.funcs, st.funcs.len());
    let o2 = if st.strs.len() > 0 {
        strs_text(o1 + ".section .rodata\n"@, st.strs, st.strs.len())
    } else {
        o1
    };
    aligns_text(
        o2
            + ".section .bss\n.balign 8\n__handler_stack:\n    .skip 8192\n__handler_idx:\n    .skip 8\n"@,
        env.aligns,
        env.aligns.len(),
    )
}

/// The result of compiling a program: the assembly file, or the failed static
/// assertions.
pub open spec fn compile_result(env: Env, st: Code, decls: Seq<&TopLevel>) -> Result<
    Seq<char>,
    Seq<char>,
> {
    if st.errs.len() > 0 {
        Err(joined(st.errs, "\n"@))
    } else {
        let t = elf_text(env, st);
        let c = dtor_comments(decls, decls.len());
        Ok(
            if c.len() > 0 {
                insert_before(t, ".section .text"@, c)
            } else {
                t
            },
        )
    }
}

/// The state of a new generator.
pub open spec fn fresh_code() -> Code {
    Code {
        code: Seq::empty(),
        vars: Map::empty(),
        off: 0,
        next: 0,
        funcs: Seq::empty(),
        strs: Seq::empty(),
        errs: Seq::empty(),
        labels: 0,
        lambdas: 0,
        epi: None,
        alloc: fresh_alloc(pool(), 0),
        pos: 0,
    }
}

// ---------------------------------------------------------------------------
// Programs that can be compiled
// ---------------------------------------------------------------------------

/// What x86_64 can take.
pub open spec fn x86_target() -> Target {
    Target { args: 6, scratch: 9, strict: true }
}

// ---------------------------------------------------------------------------
// Laws
// ---------------------------------------------------------------------------

/// Every compiled program has a `main`: its own, or one made of its statements.
pub proof fn law_programs_have_a_main(env: Env, st: Code, decls: Seq<&TopLevel>)
    ensures
        any_main(program_code(env, st, decls).funcs),
{
    let s = fns_code(env, st, decls, decls.len());
    if !any_main(s.funcs) {
        let all = main_code(env, s, decls).funcs;
        assert(all[all.len() - 1].is_main);
    }
}

/// Calls are inlined only so deep: at the end of the depth that a context
/// allows, every call of a function is a real call.
pub proof fn law_inlining_is_bounded(env: Env, ctx: Ctx, st: Code, c: CallExpr, target: Seq<char>)
    requires
        ctx.depth == 0,
        *c.callee matches Expr::Identifier(id) && !is_builtin(id.name@),
    ensures
        *c.callee matches Expr::Identifier(id) && call_code(env, ctx, st, c, target) == real_call(
            env,
            ctx,
            st,
            id.name@,
            c.args@,
            target,
        ),
{
}

/// The stack is aligned to 16 bytes in the body of a function: the return
/// address, the frame pointer, `r12`, the saved registers and the frame come to
/// a multiple of 16.
pub proof fn law_the_stack_is_aligned(off: i32, saved: usize)
    ensures
        (8 + 8 + saved_bytes(saved) + padded_frame(off, saved)) % 16 == 0,
{
}

/// Every slot lies in the frame: below `r12` and the saved registers, which
/// stand under the frame pointer, and above the stack pointer.
pub proof fn law_slots_lie_below_the_saved_registers(off: i32, saved: usize, slot: int)
    requires
        saved <= 4,
        off <= slot <= SLOTS_TOP - 8,
    ensures
        slot + 8 <= -saved_bytes(saved),
        slot >= -(saved_bytes(saved) + slot_bytes(off, saved)),
        slot >= -(saved_bytes(saved) + padded_frame(off, saved)),
{
}

} // verus!
