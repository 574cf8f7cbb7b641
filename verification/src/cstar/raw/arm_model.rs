//! What the ARM backend emits.
//!
//! `Code` is the state of code generation; `expr_code` and `stmt_code` give
//! the state behind an expression or a statement.  The text of the state is
//! the assembly emitted so far.

use vstd::prelude::*;
use crate::ast::{
    AsmOperand, AsmStmt, Assignee, BinaryExpr, BinaryOp, CallExpr, Expr, FnDef, FnParam, ForInStmt,
    ForRangeStmt, Identifier, IfStmt, LambdaExpr, RangeExpr, Stmt, TopLevel, TryStmt, UnaryOp,
    WhileStmt,
};
use crate::cstar::raw::common::{
    break_found, bump, continue_found, down8, dtor_vars, fib_shape, frame_bytes, free_names,
    inlineable, operand_list, param_names, parts_text, plain_arg, plain_behind, VarLoc,
};
use crate::cstar::raw::limits::Target;
use crate::cstar::raw::lines::{ins1, ins1i, ins2, ins2i, ins3, ins4, label_line, mem_line};
use crate::cstar::raw::model::{
    any_main, assert_message, Ctx, dtor_comments, Env, float_word, Func, is_builtin, lab, list_len,
    offset_of, restored, str_label, strs_text, template_lines, three_args,
};
use crate::text::{byte_len, dec, insert_before, joined, lines, repeated, sorted_set};

verus! {

/// The offset from the frame pointer below which the stack slots lie. Above it
/// there is room for all pool registers, on either architecture.
pub const SLOTS_TOP: i32 = -80;

/// The state of code generation.
pub struct Code {
    /// The text of the current function.
    pub code: Seq<char>,
    /// The locations of the variables in scope.
    pub vars: Map<Seq<char>, VarLoc>,
    /// The lowest stack slot in use, or `SLOTS_TOP` where none is.
    pub off: i32,
    /// The number of pool registers in use.
    pub next: usize,
    /// The functions compiled so far.
    pub funcs: Seq<Func>,
    /// The string constants.
    pub strs: Seq<Seq<char>>,
    /// The failed static assertions.
    pub errs: Seq<Seq<char>>,
    /// The next label number.
    pub labels: usize,
    /// The next lambda number.
    pub lambdas: usize,
    /// Where `return` jumps to.
    pub epi: Option<Seq<char>>,
}

impl Code {
    /// The same state with another text.
    pub open spec fn with(self, code: Seq<char>) -> Code {
        Code { code, ..self }
    }

    /// The same state with one more string constant.
    pub open spec fn intern(self, s: Seq<char>) -> Code {
        Code { strs: self.strs.push(s), ..self }
    }

    /// The same state with the label counter moved on.
    pub open spec fn labelled(self) -> Code {
        Code { labels: bump(self.labels), ..self }
    }
}

// ---------------------------------------------------------------------------
// Registers
// ---------------------------------------------------------------------------

/// The return register.
#[verifier::opaque]
pub open spec fn ret(a64: bool) -> Seq<char> {
    if a64 {
        "x0"@
    } else {
        "r0"@
    }
}

/// The first scratch register.
#[verifier::opaque]
pub open spec fn tmp(a64: bool) -> Seq<char> {
    if a64 {
        "x9"@
    } else {
        "r12"@
    }
}

/// The second scratch register.
#[verifier::opaque]
pub open spec fn tmp2(a64: bool) -> Seq<char> {
    if a64 {
        "x10"@
    } else {
        "r3"@
    }
}

/// The third scratch register.
#[verifier::opaque]
pub open spec fn tmp3(a64: bool) -> Seq<char> {
    if a64 {
        "x11"@
    } else {
        "r2"@
    }
}

/// The frame pointer.
#[verifier::opaque]
pub open spec fn fp(a64: bool) -> Seq<char> {
    if a64 {
        "x29"@
    } else {
        "r11"@
    }
}

/// The prefix of general register names.
#[verifier::opaque]
pub open spec fn reg_prefix(a64: bool) -> Seq<char> {
    if a64 {
        "x"@
    } else {
        "r"@
    }
}

/// The number of callee-saved registers that hold variables.
pub open spec fn pool_len(a64: bool) -> usize {
    if a64 {
        10
    } else {
        7
    }
}

/// The callee-saved register `i`: `x19`-`x28` or `r4`-`r10`.
#[verifier::opaque]
pub open spec fn pool_reg(a64: bool, i: int) -> Seq<char> {
    reg_prefix(a64) + dec((i + (if a64 {
        19
    } else {
        4int
    })) as nat)
}

/// The number of argument registers.
pub open spec fn arg_len(a64: bool) -> usize {
    if a64 {
        8
    } else {
        4
    }
}

/// The argument register `i`.
#[verifier::opaque]
pub open spec fn arg_reg(a64: bool, i: int) -> Seq<char> {
    reg_prefix(a64) + dec(i as nat)
}

/// The number of registers for inline assembly operands.
pub open spec fn scratch_len(a64: bool) -> usize {
    if a64 {
        9
    } else {
        5
    }
}

/// The register of inline assembly operand `i`: `x9`-`x17`, or `r0`-`r3` and
/// `r12`.
#[verifier::opaque]
pub open spec fn scratch_reg(a64: bool, i: int) -> Seq<char> {
    if a64 {
        "x"@ + dec((i + 9) as nat)
    } else if i == 4 {
        "r12"@
    } else {
        "r"@ + dec(i as nat)
    }
}

// ---------------------------------------------------------------------------
// Straight-line pieces
// ---------------------------------------------------------------------------

/// Loads the constant `v` into `reg`.
#[verifier::opaque]
pub open spec fn load_imm(out: Seq<char>, a64: bool, reg: Seq<char>, v: i64) -> Seq<char> {
    if a64 {
        if 0 <= v <= 65535 {
            out + ins1i("mov"@, reg, v as int)
        } else if -65536 <= v < 0 {
            out + ins1i("movn"@, reg, (!v & 0xffff) as int)
        } else {
            let u = v as u64;
            let c1 = (u >> 16) & 0xffff;
            let c2 = (u >> 32) & 0xffff;
            let c3 = (u >> 48) & 0xffff;
            let o0 = out + ins1i("mov"@, reg, (u & 0xffff) as int);
            let o1 = if c1 != 0 {
                o0 + movk_line(reg, c1, "16"@)
            } else {
                o0
            };
            let o2 = if c2 != 0 {
                o1 + movk_line(reg, c2, "32"@)
            } else {
                o1
            };
            if c3 != 0 {
                o2 + movk_line(reg, c3, "48"@)
            } else {
                o2
            }
        }
    } else {
        let u = v as u32;
        let lo = u & 0xffff;
        let hi = (u >> 16) & 0xffff;
        let o0 = out + ins1i("mov"@, reg, lo as int);
        if hi != 0 {
            o0 + ins1i("movt"@, reg, hi as int)
        } else {
            o0
        }
    }
}

/// `movk reg, #c, lsl #shift`.
#[verifier::opaque]
pub open spec fn movk_line(reg: Seq<char>, c: u64, shift: Seq<char>) -> Seq<char> {
    "    movk "@ + reg + ", #"@ + dec(c as nat) + ", lsl #"@ + shift + "\n"@
}

/// Adds the constant `v` to `src`.
#[verifier::opaque]
pub open spec fn add_imm(
    out: Seq<char>,
    a64: bool,
    target: Seq<char>,
    src: Seq<char>,
    v: i64,
) -> Seq<char> {
    if 0 <= v <= 4095 {
        out + ins2i("add"@, target, src, v as int)
    } else if -4095 <= v < 0 {
        out + ins2i("sub"@, target, src, -v)
    } else {
        load_imm(out, a64, tmp(a64), v) + ins3("add"@, target, src, tmp(a64))
    }
}

/// Subtracts the constant `v` from `src`.
#[verifier::opaque]
pub open spec fn sub_imm(
    out: Seq<char>,
    a64: bool,
    target: Seq<char>,
    src: Seq<char>,
    v: i64,
) -> Seq<char> {
    if 0 <= v <= 4095 {
        out + ins2i("sub"@, target, src, v as int)
    } else if -4095 <= v < 0 {
        out + ins2i("add"@, target, src, -v)
    } else {
        load_imm(out, a64, tmp(a64), v) + ins3("sub"@, target, src, tmp(a64))
    }
}

/// The condition code that holds exactly where `cond` does not.
#[verifier::opaque]
pub open spec fn inverse(cond: Seq<char>) -> Seq<char> {
    if cond == "eq"@ {
        "ne"@
    } else if cond == "ne"@ {
        "eq"@
    } else if cond == "lt"@ {
        "ge"@
    } else if cond == "ge"@ {
        "lt"@
    } else if cond == "gt"@ {
        "le"@
    } else if cond == "le"@ {
        "gt"@
    } else {
        cond
    }
}

/// Sets `target` to one where `cond` holds and to zero where it does not.
#[verifier::opaque]
pub open spec fn cset(out: Seq<char>, a64: bool, target: Seq<char>, cond: Seq<char>) -> Seq<char> {
    if a64 {
        out + ins2("cset"@, target, cond)
    } else {
        out + "    mov"@ + cond + " "@ + target + ", #1\n"@ + "    mov"@ + inverse(cond) + " "@
            + target + ", #0\n"@
    }
}

/// Compares `src` with the constant `v` and sets `target` accordingly.
#[verifier::opaque]
pub open spec fn set_compare(
    out: Seq<char>,
    a64: bool,
    target: Seq<char>,
    src: Seq<char>,
    v: i64,
    cond: Seq<char>,
) -> Seq<char> {
    cset(
        if -2048 <= v <= 2047 {
            out + ins1i("cmp"@, src, v as int)
        } else {
            load_imm(out, a64, tmp(a64), v) + ins2("cmp"@, src, tmp(a64))
        },
        a64,
        target,
        cond,
    )
}

/// Pushes a register onto the stack.
#[verifier::opaque]
pub open spec fn push_reg(a64: bool, r: Seq<char>) -> Seq<char> {
    if a64 {
        "    str "@ + r + ", [sp, #-16]!\n"@
    } else {
        "    push {"@ + r + "}\n"@
    }
}

/// Pops a register from the stack.
#[verifier::opaque]
pub open spec fn pop_reg(a64: bool, r: Seq<char>) -> Seq<char> {
    if a64 {
        "    ldr "@ + r + ", [sp], #16\n"@
    } else {
        "    pop {"@ + r + "}\n"@
    }
}

/// Loads the address of string constant `n` into `target`.
#[verifier::opaque]
pub open spec fn load_str(out: Seq<char>, a64: bool, target: Seq<char>, n: nat) -> Seq<char> {
    if a64 {
        out + ins2("adrp"@, target, str_label(n)) + ins3(
            "add"@,
            target,
            target,
            ":lo12:"@ + str_label(n),
        )
    } else {
        out + ins2("ldr"@, target, "="@ + str_label(n))
    }
}

/// A new string constant with its address in `target`.
pub open spec fn str_code(a64: bool, st: Code, target: Seq<char>, s: Seq<char>) -> Code {
    st.intern(s).with(load_str(st.code, a64, target, st.strs.len()))
}

/// Stores `src` to a variable.
#[verifier::opaque]
pub open spec fn store_var(out: Seq<char>, a64: bool, loc: VarLoc, src: Seq<char>) -> Seq<char> {
    match loc {
        VarLoc::Reg(i) => out + ins2("mov"@, pool_reg(a64, i as int), src),
        VarLoc::Stack(off) => out + mem_line("str"@, src, fp(a64), off as int),
    }
}

/// Stores `src` to a variable that is not in `src` already.
#[verifier::opaque]
pub open spec fn store_var_unless(
    out: Seq<char>,
    a64: bool,
    loc: VarLoc,
    src: Seq<char>,
) -> Seq<char> {
    if loc matches VarLoc::Reg(i) && pool_reg(a64, i as int) == src {
        out
    } else {
        store_var(out, a64, loc, src)
    }
}

/// Loads a variable into `target`.
#[verifier::opaque]
pub open spec fn load_var(out: Seq<char>, a64: bool, loc: VarLoc, target: Seq<char>) -> Seq<char> {
    match loc {
        VarLoc::Reg(i) => out + ins2("mov"@, target, pool_reg(a64, i as int)),
        VarLoc::Stack(off) => out + mem_line("ldr"@, target, fp(a64), off as int),
    }
}

/// Loads a variable into `target` unless it is there already.
#[verifier::opaque]
pub open spec fn load_var_unless(
    out: Seq<char>,
    a64: bool,
    loc: VarLoc,
    target: Seq<char>,
) -> Seq<char> {
    if loc matches VarLoc::Reg(i) && pool_reg(a64, i as int) == target {
        out
    } else {
        load_var(out, a64, loc, target)
    }
}

/// Moves the return register to `target` unless it is `target`.
#[verifier::opaque]
pub open spec fn mov_ret(out: Seq<char>, a64: bool, target: Seq<char>) -> Seq<char> {
    if target != ret(a64) {
        out + ins2("mov"@, target, ret(a64))
    } else {
        out
    }
}

/// The location of variable `n`, and the state in which it has one: its
/// present location, or else the next pool register, or else a new stack slot.
#[verifier::opaque]
pub open spec fn place_var(a64: bool, st: Code, n: Seq<char>) -> (VarLoc, Code) {
    if st.vars.contains_key(n) {
        (st.vars[n], st)
    } else if st.next < pool_len(a64) {
        (
            VarLoc::Reg(st.next),
            Code {
                vars: st.vars.insert(n, VarLoc::Reg(st.next)),
                next: (st.next + 1) as usize,
                ..st
            },
        )
    } else {
        (
            VarLoc::Stack(down8(st.off)),
            Code {
                vars: st.vars.insert(n, VarLoc::Stack(down8(st.off))),
                off: down8(st.off),
                ..st
            },
        )
    }
}

/// The end of a `return`: a jump to the epilogue.
#[verifier::opaque]
pub open spec fn return_jump(a64: bool, st: Code) -> Code {
    match st.epi {
        Some(l) => st.with(st.code + ins1("b"@, l)),
        None => if a64 {
            st.with(st.code + "    ret\n"@)
        } else {
            st.with(st.code + "    bx lr\n"@)
        },
    }
}

/// Puts zero into the return register.
#[verifier::opaque]
pub open spec fn zero_ret(a64: bool) -> Seq<char> {
    if a64 {
        "    mov x0, #0\n"@
    } else {
        "    mov r0, #0\n"@
    }
}

/// The mnemonic of a three-register operation.
#[verifier::opaque]
pub open spec fn reg_op(op: BinaryOp) -> Option<Seq<char>> {
    match op {
        BinaryOp::Add => Some("add"@),
        BinaryOp::Sub => Some("sub"@),
        BinaryOp::Mul => Some("mul"@),
        BinaryOp::Div => Some("sdiv"@),
        BinaryOp::And | BinaryOp::BitAnd => Some("and"@),
        BinaryOp::Or | BinaryOp::BitOr => Some("orr"@),
        BinaryOp::BitXor => Some("eor"@),
        _ => None,
    }
}

/// The condition code of a comparison.
#[verifier::opaque]
pub open spec fn cond_of(op: BinaryOp) -> Option<Seq<char>> {
    match op {
        BinaryOp::Lt => Some("lt"@),
        BinaryOp::Gt => Some("gt"@),
        BinaryOp::Le => Some("le"@),
        BinaryOp::Ge => Some("ge"@),
        BinaryOp::Eq => Some("eq"@),
        BinaryOp::Ne => Some("ne"@),
        _ => None,
    }
}

/// The operation `op` of the return register with the constant `v`, with its
/// result in `target`.
#[verifier::opaque]
pub open spec fn imm_op(
    out: Seq<char>,
    a64: bool,
    op: BinaryOp,
    target: Seq<char>,
    v: i64,
) -> Seq<char> {
    let r = ret(a64);
    match op {
        BinaryOp::Add => add_imm(out, a64, target, r, v),
        BinaryOp::Sub => sub_imm(out, a64, target, r, v),
        BinaryOp::Mod => {
            let o = load_imm(out, a64, tmp(a64), v) + ins3("sdiv"@, tmp2(a64), r, tmp(a64));
            if a64 {
                o + ins4("msub"@, target, tmp2(a64), tmp(a64), r)
            } else {
                o + ins4("mls"@, target, tmp(a64), tmp2(a64), r)
            }
        },
        BinaryOp::Shl => out + ins2i("lsl"@, target, r, (v & 63) as int),
        BinaryOp::Shr => out + ins2i("asr"@, target, r, (v & 63) as int),
        _ => match cond_of(op) {
            Some(c) => set_compare(out, a64, target, r, v, c),
            None => match reg_op(op) {
                Some(m) => load_imm(out, a64, tmp(a64), v) + ins3(m, target, r, tmp(a64)),
                None => load_imm(out, a64, target, 0),
            },
        },
    }
}

/// The operation `op` of the second scratch register with the first. The
/// quotient of a remainder goes to the third one where `target` is the divisor.
#[verifier::opaque]
pub open spec fn general_op(out: Seq<char>, a64: bool, op: BinaryOp, target: Seq<char>) -> Seq<char> {
    let l = tmp2(a64);
    let r = tmp(a64);
    match op {
        BinaryOp::Mod => {
            let q = if target == r {
                tmp3(a64)
            } else {
                target
            };
            let o = out + ins3("sdiv"@, q, l, r);
            if a64 {
                o + ins4("msub"@, target, q, r, l)
            } else {
                o + ins4("mls"@, target, r, q, l)
            }
        },
        BinaryOp::Shl => if a64 {
            out + ins3("lsl"@, target, l, r)
        } else {
            out + ins3("mov"@, target, l, "lsl "@ + r)
        },
        BinaryOp::Shr => if a64 {
            out + ins3("asr"@, target, l, r)
        } else {
            out + ins3("mov"@, target, l, "asr "@ + r)
        },
        _ => match cond_of(op) {
            Some(c) => cset(out + ins2("cmp"@, l, r), a64, target, c),
            None => match reg_op(op) {
                Some(m) => out + ins3(m, target, l, r),
                None => out + ins1i("mov"@, target, 0),
            },
        },
    }
}

/// The condition codes of a float comparison on the 32-bit architecture: the
/// one that holds and the one that does not.
#[verifier::opaque]
pub open spec fn vfp_conds(op: BinaryOp) -> (Seq<char>, Seq<char>) {
    match op {
        BinaryOp::Lt => ("mi"@, "pl"@),
        BinaryOp::Gt => ("gt"@, "le"@),
        BinaryOp::Le => ("ls"@, "hi"@),
        BinaryOp::Ge => ("ge"@, "lt"@),
        BinaryOp::Eq => ("eq"@, "ne"@),
        _ => ("ne"@, "eq"@),
    }
}

/// The mnemonic of a float operation.
#[verifier::opaque]
pub open spec fn float_op(a64: bool, op: BinaryOp) -> Option<Seq<char>> {
    match op {
        BinaryOp::Add => Some(if a64 {
            "fadd"@
        } else {
            "vadd.f64"@
        }),
        BinaryOp::Sub => Some(if a64 {
            "fsub"@
        } else {
            "vsub.f64"@
        }),
        BinaryOp::Mul => Some(if a64 {
            "fmul"@
        } else {
            "vmul.f64"@
        }),
        BinaryOp::Div => Some(if a64 {
            "fdiv"@
        } else {
            "vdiv.f64"@
        }),
        _ => None,
    }
}

/// The mnemonic that moves between general and float registers.
#[verifier::opaque]
pub open spec fn fmov(a64: bool) -> Seq<char> {
    if a64 {
        "fmov"@
    } else {
        "vmov"@
    }
}

/// The float operation on `d8` and `d9`, with its result in `target`.
#[verifier::opaque]
pub open spec fn float_tail(out: Seq<char>, a64: bool, op: BinaryOp, target: Seq<char>) -> Seq<char> {
    match cond_of(op) {
        Some(c) => if a64 {
            out + ins2("fcmp"@, "d8"@, "d9"@) + ins2("cset"@, target, c)
        } else {
            out + ins2("vcmp.f64"@, "d8"@, "d9"@) + "    vmrs APSR_nzcv, FPSCR\n"@ + "    mov"@
                + vfp_conds(op).0 + " "@ + target + ", #1\n"@ + "    mov"@ + vfp_conds(op).1
                + " "@ + target + ", #0\n"@
        },
        None => {
            let o = match float_op(a64, op) {
                Some(m) => out + ins3(m, "d8"@, "d8"@, "d9"@),
                None => out + (if a64 {
                    "    fmov d8, #0.0\n"@
                } else {
                    "    vmov.f64 d8, #0\n"@
                }),
            };
            o + ins2(fmov(a64), target, "d8"@)
        },
    }
}

/// The inlined routine that prints the return register as a signed decimal number.
#[verifier::opaque]
pub open spec fn print_int_text(out: Seq<char>, a64: bool, id: nat) -> Seq<char> {
    if a64 {
        out
            + "    @ print signed int in x0 (id "@ + dec(id) + ")\n"@
            + "    sub sp, sp, #48\n"@
            + "    mov x9, sp\n"@
            + "    add x9, x9, #32\n"@
            + "    mov x13, x0\n"@
            + "    cbz x0, .Lpin_zero_"@ + dec(id) + "\n"@
            + "    tbz x0, #63, .Lpin_digits_"@ + dec(id) + "\n"@
            + "    neg x0, x0\n"@
            + ".Lpin_digits_"@ + dec(id) + ":\n"@
            + ".Lpin_loop_"@ + dec(id) + ":\n"@
            + "    mov x10, #10\n"@
            + "    udiv x11, x0, x10\n"@
            + "    msub x12, x11, x10, x0\n"@
            + "    add x12, x12, #48\n"@
            + "    sub x9, x9, #1\n"@
            + "    strb w12, [x9]\n"@
            + "    mov x0, x11\n"@
            + "    cbnz x0, .Lpin_loop_"@ + dec(id) + "\n"@
            + ".Lpin_sign_"@ + dec(id) + ":\n"@
            + "    tbz x13, #63, .Lpin_write_"@ + dec(id) + "\n"@
            + "    sub x9, x9, #1\n"@
            + "    mov x12, #45\n"@
            + "    strb w12, [x9]\n"@
            + "    b .Lpin_write_"@ + dec(id) + "\n"@
            + ".Lpin_zero_"@ + dec(id) + ":\n"@
            + "    sub x9, x9, #1\n"@
            + "    mov x12, #48\n"@
            + "    strb w12, [x9]\n"@
            + "    b .Lpin_sign_"@ + dec(id) + "\n"@
            + ".Lpin_write_"@ + dec(id) + ":\n"@
            + "    mov x0, #1\n"@
            + "    mov x1, x9\n"@
            + "    mov x2, sp\n"@
            + "    add x2, x2, #32\n"@
            + "    sub x2, x2, x9\n"@
            + "    mov x8, #64\n"@
            + "    svc #0\n"@
            + "    add sp, sp, #48\n"@
    } else {
        out
            + "    @ print signed int in r0 (id "@ + dec(id) + ")\n"@
            + "    sub sp, sp, #48\n"@
            + "    mov r1, sp\n"@
            + "    add r1, r1, #32\n"@
            + "    mov r12, r0\n"@
            + "    cmp r0, #0\n"@
            + "    beq .Lpin_zero_"@ + dec(id) + "\n"@
            + "    bpl .Lpin_digits_"@ + dec(id) + "\n"@
            + "    rsbs r0, r0, #0\n"@
            + ".Lpin_digits_"@ + dec(id) + ":\n"@
            + ".Lpin_loop_"@ + dec(id) + ":\n"@
            + "    mov r2, #10\n"@
            + "    sdiv r3, r0, r2\n"@
            + "    mls r2, r3, r2, r0\n"@
            + "    add r2, r2, #48\n"@
            + "    sub r1, r1, #1\n"@
            + "    strb r2, [r1]\n"@
            + "    mov r0, r3\n"@
            + "    cmp r0, #0\n"@
            + "    bne .Lpin_loop_"@ + dec(id) + "\n"@
            + ".Lpin_sign_"@ + dec(id) + ":\n"@
            + "    cmp r12, #0\n"@
            + "    bpl .Lpin_write_"@ + dec(id) + "\n"@
            + "    sub r1, r1, #1\n"@
            + "    mov r2, #45\n"@
            + "    strb r2, [r1]\n"@
            + "    b .Lpin_write_"@ + dec(id) + "\n"@
            + ".Lpin_zero_"@ + dec(id) + ":\n"@
            + "    sub r1, r1, #1\n"@
            + "    mov r2, #48\n"@
            + "    strb r2, [r1]\n"@
            + "    b .Lpin_sign_"@ + dec(id) + "\n"@
            + ".Lpin_write_"@ + dec(id) + ":\n"@
            + "    mov r0, #1\n"@
            + "    mov r2, sp\n"@
            + "    add r2, r2, #32\n"@
            + "    sub r2, r2, r1\n"@
            + "    mov r7, #4\n"@
            + "    svc #0\n"@
            + "    add sp, sp, #48\n"@
    }
}

/// The scaling of a double by a million, and its integer part.
#[verifier::opaque]
pub open spec fn print_float_head(out: Seq<char>, a64: bool, id: nat) -> Seq<char> {
    if a64 {
        out
            + "    @ print f64 in x0 (id "@ + dec(id) + ")\n"@
            + "    fmov d8, x0\n"@
            + "    fmov d9, #1.0e6\n"@
            + "    fmul d8, d8, d9\n"@
            + "    fcvtzs x0, d8\n"@
            + "    str x0, [sp, #-16]!\n"@
            + "    mov x9, #1000000\n"@
            + "    sdiv x0, x0, x9\n"@
    } else {
        out
            + "    @ print f64 in r0 (id "@ + dec(id) + ")\n"@
            + "    vmov d8, r0\n"@
            + "    vldr d9, =1.0e6\n"@
            + "    vmul.f64 d8, d8, d9\n"@
            + "    vcvt.s32.f64 d8, d8\n"@
            + "    vmov r0, d8\n"@
            + "    push {r0}\n"@
            + "    ldr r12, =1000000\n"@
            + "    sdiv r0, r0, r12\n"@
    }
}

/// The decimal point and six digits of the fraction.
#[verifier::opaque]
pub open spec fn print_float_tail(out: Seq<char>, a64: bool, id: nat, dot: nat) -> Seq<char> {
    if a64 {
        out
            + "    mov x0, #1\n"@
            + "    adrp x1, .str"@ + dec(dot) + "\n"@
            + "    add x1, x1, :lo12:.str"@ + dec(dot) + "\n"@
            + "    mov x2, #1\n"@
            + "    mov x8, #64\n"@
            + "    svc #0\n"@
            + "    ldr x9, [sp], #16\n"@
            + "    cbz x9, .Lpflt_zero_"@ + dec(id) + "\n"@
            + "    tbz x9, #63, .Lpflt_pos_"@ + dec(id) + "\n"@
            + "    neg x9, x9\n"@
            + ".Lpflt_pos_"@ + dec(id) + ":\n"@
            + "    mov x10, #1000000\n"@
            + "    udiv x11, x9, x10\n"@
            + "    msub x0, x11, x10, x9\n"@
            + "    sub sp, sp, #32\n"@
            + "    mov x1, sp\n"@
            + "    add x1, x1, #6\n"@
            + ".Lpflt_loop_"@ + dec(id) + ":\n"@
            + "    mov x2, #10\n"@
            + "    udiv x3, x0, x2\n"@
            + "    msub x0, x3, x2, x0\n"@
            + "    add x0, x0, #48\n"@
            + "    sub x1, x1, #1\n"@
            + "    strb w0, [x1]\n"@
            + "    mov x0, x3\n"@
            + "    cmp sp, x1\n"@
            + "    bne .Lpflt_loop_"@ + dec(id) + "\n"@
            + "    mov x0, #1\n"@
            + "    mov x2, #6\n"@
            + "    mov x8, #64\n"@
            + "    svc #0\n"@
            + "    add sp, sp, #32\n"@
            + "    b .Lpflt_done_"@ + dec(id) + "\n"@
            + ".Lpflt_zero_"@ + dec(id) + ":\n"@
            + "    mov x0, #0\n"@
            + "    sub sp, sp, #32\n"@
            + "    mov x1, sp\n"@
            + "    add x1, x1, #6\n"@
            + ".Lpflt_zloop_"@ + dec(id) + ":\n"@
            + "    mov x2, #48\n"@
            + "    sub x1, x1, #1\n"@
            + "    strb w2, [x1]\n"@
            + "    cmp sp, x1\n"@
            + "    bne .Lpflt_zloop_"@ + dec(id) + "\n"@
            + "    mov x0, #1\n"@
            + "    mov x2, #6\n"@
            + "    mov x8, #64\n"@
            + "    svc #0\n"@
            + "    add sp, sp, #32\n"@
            + ".Lpflt_done_"@ + dec(id) + ":\n"@
    } else {
        out
            + "    mov r0, #1\n"@
            + "    ldr r1, =.str"@ + dec(dot) + "\n"@
            + "    mov r2, #1\n"@
            + "    mov r7, #4\n"@
            + "    svc #0\n"@
            + "    pop {r12}\n"@
            + "    cmp r12, #0\n"@
            + "    beq .Lpflt_zero_"@ + dec(id) + "\n"@
            + "    bpl .Lpflt_pos_"@ + dec(id) + "\n"@
            + "    rsbs r12, r12, #0\n"@
            + ".Lpflt_pos_"@ + dec(id) + ":\n"@
            + "    ldr r3, =1000000\n"@
            + "    sdiv r2, r12, r3\n"@
            + "    mls r0, r2, r3, r12\n"@
            + "    sub sp, sp, #32\n"@
            + "    mov r1, sp\n"@
            + "    add r1, r1, #6\n"@
            + ".Lpflt_loop_"@ + dec(id) + ":\n"@
            + "    mov r2, #10\n"@
            + "    sdiv r3, r0, r2\n"@
            + "    mls r0, r3, r2, r0\n"@
            + "    add r0, r0, #48\n"@
            + "    sub r1, r1, #1\n"@
            + "    strb r0, [r1]\n"@
            + "    mov r0, r3\n"@
            + "    cmp r1, sp\n"@
            + "    bne .Lpflt_loop_"@ + dec(id) + "\n"@
            + "    mov r0, #1\n"@
            + "    mov r2, #6\n"@
            + "    mov r7, #4\n"@
            + "    svc #0\n"@
            + "    add sp, sp, #32\n"@
            + "    b .Lpflt_done_"@ + dec(id) + "\n"@
            + ".Lpflt_zero_"@ + dec(id) + ":\n"@
            + "    sub sp, sp, #32\n"@
            + "    mov r1, sp\n"@
            + "    add r1, r1, #6\n"@
            + ".Lpflt_zloop_"@ + dec(id) + ":\n"@
            + "    mov r2, #48\n"@
            + "    sub r1, r1, #1\n"@
            + "    strb r2, [r1]\n"@
            + "    cmp r1, sp\n"@
            + "    bne .Lpflt_zloop_"@ + dec(id) + "\n"@
            + "    mov r0, #1\n"@
            + "    mov r2, #6\n"@
            + "    mov r7, #4\n"@
            + "    svc #0\n"@
            + "    add sp, sp, #32\n"@
            + ".Lpflt_done_"@ + dec(id) + ":\n"@
    }
}

/// Prints a double: its integer part, a point, and six digits.
#[verifier::opaque]
pub open spec fn print_float_code(a64: bool, st: Code) -> Code {
    let id = st.labels;
    let s1 = st.labelled().with(print_float_head(st.code, a64, id as nat));
    let s2 = print_int_code(a64, s1);
    s2.intern("."@).with(print_float_tail(s2.code, a64, id as nat, s2.strs.len()))
}

/// Prints the return register as a signed number.
#[verifier::opaque]
pub open spec fn print_int_code(a64: bool, st: Code) -> Code {
    st.labelled().with(print_int_text(st.code, a64, st.labels as nat))
}

/// Writes string constant `n`, of `len` bytes, to the standard output.
#[verifier::opaque]
pub open spec fn write_str(out: Seq<char>, a64: bool, n: nat, len: nat) -> Seq<char> {
    if a64 {
        out
            + "    mov x0, #1\n         // fd = stdout\n    adrp x1, .str"@
            + dec(n) + "\n    add x1, x1, :lo12:.str"@ + dec(n) + "\n    mov x2, #"@ + dec(len)
            + "\n    mov x8, #64\n    svc #0\n"@
    } else {
        out + "    mov r0, #1\n    ldr r1, =.str"@ + dec(n) + "\n    mov r2, #"@ + dec(len)
            + "\n    mov r7, #4\n    svc #0\n"@
    }
}

/// Writes a new string constant that holds a line feed.
#[verifier::opaque]
pub open spec fn newline_code(a64: bool, st: Code) -> Code {
    let n = st.strs.len();
    st.intern("\n"@).with(
        if a64 {
            st.code + "    mov x0, #1\n    adrp x1, .str"@ + dec(n)
                + "\n    add x1, x1, :lo12:.str"@ + dec(n)
                + "\n    mov x2, #1\n    mov x8, #64\n    svc #0\n"@
        } else {
            st.code + "    mov r0, #1\n    ldr r1, =.str"@ + dec(n)
                + "\n    mov r2, #1\n    mov r7, #4\n    svc #0\n"@
        },
    )
}

/// Takes the innermost exception handler off the handler stack.
#[verifier::opaque]
pub open spec fn pop_handler(a64: bool) -> Seq<char> {
    if a64 {
        "    adrp x9, __handler_idx\n    add x9, x9, :lo12:__handler_idx\n    ldr x10, [x9]\n    sub x10, x10, #1\n    str x10, [x9]\n"@
    } else {
        "    ldr r12, =__handler_idx\n    ldr r3, [r12]\n    sub r3, r3, #1\n    str r3, [r12]\n"@
    }
}

/// Puts the handler at `label` onto the handler stack.
#[verifier::opaque]
pub open spec fn push_handler(out: Seq<char>, a64: bool, label: Seq<char>) -> Seq<char> {
    if a64 {
        out + ins2("adrp"@, "x0"@, label) + ins3("add"@, "x0"@, "x0"@, ":lo12:"@ + label)
            + "    adrp x9, __handler_idx\n    add x9, x9, :lo12:__handler_idx\n    ldr x10, [x9]\n    adrp x11, __handler_stack\n    add x11, x11, :lo12:__handler_stack\n    str x0, [x11, x10, lsl #3]\n    add x10, x10, #1\n    str x10, [x9]\n"@
    } else {
        out + ins2("ldr"@, "r0"@, "="@ + label)
            + "    ldr r12, =__handler_idx\n    ldr r3, [r12]\n    ldr r2, =__handler_stack\n    str r0, [r2, r3, lsl #2]\n    add r3, r3, #1\n    str r3, [r12]\n"@
    }
}

/// Jumps to the handler that was taken off the handler stack.
#[verifier::opaque]
pub open spec fn jump_handler(a64: bool) -> Seq<char> {
    if a64 {
        "    adrp x11, __handler_stack\n    add x11, x11, :lo12:__handler_stack\n    ldr x8, [x11, x10, lsl #3]\n    br x8\n"@
    } else {
        "    ldr r2, =__handler_stack\n    ldr r8, [r2, r3, lsl #2]\n    bx r8\n"@
    }
}

/// Raises the value in the return register.
#[verifier::opaque]
pub open spec fn raise(out: Seq<char>, a64: bool) -> Seq<char> {
    out + pop_handler(a64) + jump_handler(a64)
}

/// The copy loop of `memcpy`.
#[verifier::opaque]
pub open spec fn memcpy_loop(out: Seq<char>, a64: bool, l: Seq<char>, end: Seq<char>) -> Seq<char> {
    let o = out + label_line(l);
    (if a64 {
        o + ins2("cbz"@, "x2"@, end) + "    ldrb w9, [x1], #1\n"@ + "    strb w9, [x0], #1\n"@
            + "    sub x2, x2, #1\n"@ + ins1("b"@, l)
    } else {
        o + "    cmp r2, #0\n"@ + ins1("beq"@, end) + "    ldrb r12, [r1], #1\n"@
            + "    strb r12, [r0], #1\n"@ + "    sub r2, r2, #1\n"@ + ins1("b"@, l)
    }) + label_line(end)
}

/// The fill loop of `memset`.
#[verifier::opaque]
pub open spec fn memset_loop(out: Seq<char>, a64: bool, l: Seq<char>, end: Seq<char>) -> Seq<char> {
    let o = out + label_line(l);
    (if a64 {
        o + ins2("cbz"@, "x2"@, end) + "    strb w1, [x0], #1\n"@ + "    sub x2, x2, #1\n"@ + ins1(
            "b"@,
            l,
        )
    } else {
        o + "    cmp r2, #0\n"@ + ins1("beq"@, end) + "    strb r1, [r0], #1\n"@
            + "    sub r2, r2, #1\n"@ + ins1("b"@, l)
    }) + label_line(end)
}

/// The acquire loop of `spin_lock`.
#[verifier::opaque]
pub open spec fn spin_loop(out: Seq<char>, a64: bool, l: Seq<char>) -> Seq<char> {
    let o = out + label_line(l);
    (if a64 {
        o + "    ldaxr w9, [x0]\n"@ + ins2("cbnz"@, "w9"@, l) + "    mov w9, #1\n"@
            + "    stxr w10, w9, [x0]\n"@ + ins2("cbnz"@, "w10"@, l)
    } else {
        o + "    ldrex r12, [r0]\n"@ + "    cmp r12, #0\n"@ + ins1("bne"@, l) + "    mov r12, #1\n"@
            + "    strex r3, r12, [r0]\n"@ + "    cmp r3, #0\n"@ + ins1("bne"@, l)
    }) + "    dmb ish\n"@
}

/// Reads the thread pointer and accesses thread-local storage with `op`.
#[verifier::opaque]
pub open spec fn tls_access(out: Seq<char>, a64: bool, op: Seq<char>) -> Seq<char> {
    if a64 {
        out + "    mrs x10, tpidr_el0\n"@ + "    "@ + op + " x0, [x10, x9]\n"@
    } else {
        out + "    mrc p15, 0, r3, c13, c0, 3\n"@ + "    "@ + op + " r0, [r3, r12]\n"@
    }
}

/// The return register as the target of a load of one byte.
#[verifier::opaque]
pub open spec fn byte_reg(a64: bool) -> Seq<char> {
    if a64 {
        "w0"@
    } else {
        "r0"@
    }
}

/// The text of a for-in loop over the bytes of a string: its initialization
/// and the head of each pass.
#[verifier::opaque]
pub open spec fn str_loop_head(
    out: Seq<char>,
    a64: bool,
    n: nat,
    len: nat,
    cond: Seq<char>,
    end: Seq<char>,
) -> Seq<char> {
    let o = out + ins1i("mov"@, tmp(a64), 0) + ins1i("mov"@, tmp2(a64), len as int);
    load_str(o, a64, tmp3(a64), n) + label_line(cond) + ins2("cmp"@, tmp(a64), tmp2(a64)) + ins1(
        "bge"@,
        end,
    ) + "    ldrb "@ + byte_reg(a64) + ", ["@ + tmp3(a64) + ", "@ + tmp(a64) + "]\n"@
}

/// The head of a counting loop: leaves the loop once the bound is reached in
/// the direction of the step.
#[verifier::opaque]
pub open spec fn range_head(
    out: Seq<char>,
    a64: bool,
    id: usize,
    loc: VarLoc,
    bound: i32,
    step: i32,
) -> Seq<char> {
    let r = ret(a64);
    let t = tmp(a64);
    let end = lab(".Lfrend_"@, id);
    let o1 = out + label_line(lab(".Lfrcond_"@, id)) + mem_line("ldr"@, r, fp(a64), step as int)
        + ins1i("cmp"@, r, 0) + ins1("bge"@, lab(".Lfrpos_"@, id));
    let o2 = load_var(o1, a64, loc, r) + mem_line("ldr"@, t, fp(a64), bound as int) + ins2(
        "cmp"@,
        r,
        t,
    ) + ins1("ble"@, end) + ins1("b"@, lab(".Lfrskip_"@, id)) + label_line(lab(".Lfrpos_"@, id));
    load_var(o2, a64, loc, r) + mem_line("ldr"@, t, fp(a64), bound as int) + ins2("cmp"@, r, t)
        + ins1("bge"@, end) + label_line(lab(".Lfrskip_"@, id))
}

/// The tail of a counting loop: advances the variable by the step.
#[verifier::opaque]
pub open spec fn range_tail(
    out: Seq<char>,
    a64: bool,
    id: usize,
    loc: VarLoc,
    step: i32,
) -> Seq<char> {
    let r = ret(a64);
    let t = tmp(a64);
    let o1 = out + label_line(lab(".Lfrincr_"@, id)) + mem_line("ldr"@, t, fp(a64), step as int);
    let o2 = match loc {
        VarLoc::Reg(i) => o1 + ins3(
            "add"@,
            pool_reg(a64, i as int),
            pool_reg(a64, i as int),
            t,
        ),
        VarLoc::Stack(off) => o1 + mem_line("ldr"@, r, fp(a64), off as int) + ins3("add"@, r, r, t)
            + mem_line("str"@, r, fp(a64), off as int),
    };
    o2 + ins1("b"@, lab(".Lfrcond_"@, id)) + label_line(lab(".Lfrend_"@, id))
}

/// The comments in front of an inline assembly block.
#[verifier::opaque]
pub open spec fn template_comments(out: Seq<char>, a: AsmStmt) -> Seq<char> {
    let o1 = out + "    @ asm block: "@ + a.template@ + "\n"@;
    let o2 = if a.outputs@.len() > 0 {
        o1 + "    @ outputs:"@ + operand_list(a.outputs@, a.outputs@.len()) + "\n"@
    } else {
        o1
    };
    if a.inputs@.len() > 0 {
        o2 + "    @ inputs:"@ + operand_list(a.inputs@, a.inputs@.len()) + "\n"@
    } else {
        o2
    }
}

/// The registers of the first `k` inline assembly operands.
pub open spec fn scratch_regs(a64: bool, k: nat) -> Seq<Seq<char>> {
    Seq::new(k, |i: int| scratch_reg(a64, i))
}

/// Stores the first `k` output registers to the output variables.
#[verifier::opaque]
pub open spec fn store_outputs(
    out: Seq<char>,
    a64: bool,
    vars: Map<Seq<char>, VarLoc>,
    ops: Seq<AsmOperand>,
    k: nat,
) -> Seq<char>
    decreases k,
{
    if k == 0 || k > ops.len() {
        out
    } else {
        let prev = store_outputs(out, a64, vars, ops, (k - 1) as nat);
        match ops[k - 1].expr {
            Expr::Identifier(id) => if vars.contains_key(id.name@) {
                store_var_unless(prev, a64, vars[id.name@], scratch_reg(a64, k - 1))
            } else {
                prev
            },
            _ => prev + "    @ asm output "@ + dec((k - 1) as nat)
                + ": non-identifier output not stored\n"@,
        }
    }
}

/// Moves the first `k` parameters from the argument registers to their pool
/// registers.
#[verifier::opaque]
pub open spec fn bind_args(a64: bool, st: Code, params: Seq<FnParam>, k: nat) -> Code
    decreases k,
{
    if k == 0 || k > params.len() {
        st
    } else {
        let prev = bind_args(a64, st, params, (k - 1) as nat);
        Code {
            code: prev.code + ins2("mov"@, pool_reg(a64, k - 1), arg_reg(a64, k - 1)),
            vars: prev.vars.insert(params[k - 1].name.name@, VarLoc::Reg((k - 1) as usize)),
            next: k as usize,
            ..prev
        }
    }
}

/// Saves the first `k` captured variables of a lambda to its capture globals.
#[verifier::opaque]
pub open spec fn captures(a64: bool, st: Code, name: Seq<char>, free: Seq<Seq<char>>, k: nat) -> Code
    decreases k,
{
    if k == 0 || k > free.len() {
        st
    } else {
        let prev = captures(a64, st, name, free, (k - 1) as nat);
        let v = free[k - 1];
        let cap = "__"@ + name + "_capture_"@ + v;
        let o1 = if prev.vars.contains_key(v) {
            load_var(prev.code, a64, prev.vars[v], ret(a64))
        } else {
            prev.code
        };
        prev.intern(cap).with(
            if a64 {
                load_str(o1, a64, tmp(a64), prev.strs.len()) + ins2("adrp"@, "x9"@, cap)
                    + "    str x0, [x9]\n"@
            } else {
                o1 + ins2("ldr"@, "r12"@, "="@ + cap) + "    str r0, [r12]\n"@
            },
        )
    }
}

/// Loads the address of the function `name`.
#[verifier::opaque]
pub open spec fn load_fn(out: Seq<char>, a64: bool, target: Seq<char>, name: Seq<char>) -> Seq<char> {
    if a64 {
        out + ins2("adrp"@, target, name) + ins3("add"@, target, target, ":lo12:"@ + name)
    } else {
        out + ins2("ldr"@, target, "="@ + name)
    }
}

/// The state in which the body of a new function is compiled: no text, no
/// variables, no stack, and a fresh epilogue label.
pub open spec fn enter_fn(st: Code) -> Code {
    Code {
        code: Seq::empty(),
        vars: Map::empty(),
        off: SLOTS_TOP,
        next: 0,
        epi: Some(lab(".Lepi_"@, st.labels)),
        labels: bump(st.labels),
        ..st
    }
}

/// The stack alignment.
pub open spec fn stack_align(a64: bool) -> int {
    if a64 {
        16
    } else {
        8
    }
}

/// The bytes in which a function saves `saved` pool registers: pairs on AArch64,
/// words on ARM32.
pub open spec fn saved_bytes(a64: bool, saved: usize) -> int {
    if a64 {
        ((saved + 1) / 2) * 16
    } else {
        saved * 4
    }
}

/// The bytes that a frame reserves below the saved registers for slots down to
/// `off`: none where no slot is in use, and else a multiple of the stack
/// alignment.
pub open spec fn slot_bytes(a64: bool, off: i32, saved: usize) -> int {
    if off < SLOTS_TOP {
        frame_bytes(off + saved_bytes(a64, saved), stack_align(a64))
    } else {
        0
    }
}

/// The function whose body has been compiled to the state `st`.
pub open spec fn made_fn(
    a64: bool,
    st: Code,
    name: Seq<char>,
    is_main: bool,
    saved: usize,
    epilogue: Seq<char>,
) -> Func {
    Func {
        name,
        code: st.code,
        is_main,
        saved,
        frame: slot_bytes(a64, st.off, saved),
        epilogue,
    }
}

/// The lesser of a register count and the size of the pool.
pub open spec fn pool_min(a64: bool, n: usize) -> usize {
    if n < pool_len(a64) {
        n
    } else {
        pool_len(a64)
    }
}

// ---------------------------------------------------------------------------
// Expressions
// ---------------------------------------------------------------------------

/// The state behind an expression whose value goes to `target`.
pub open spec fn expr_code(env: Env, ctx: Ctx, st: Code, e: Expr, target: Seq<char>) -> Code
    decreases ctx.depth, 0nat, e, 0nat,
{
    let a = env.a64();
    match e {
        Expr::Integer(i) => st.with(load_imm(st.code, a, target, i.value)),
        Expr::Float(f) => st.with(load_imm(st.code, a, target, float_word(f.bits))),
        Expr::String_(s) => str_code(a, st, target, parts_text(s.parts@)),
        Expr::Binary(b) => binary_code(env, ctx, st, b, target),
        Expr::Bool(b) => st.with(
            load_imm(
                st.code,
                a,
                target,
                if b.value {
                    1
                } else {
                    0
                },
            ),
        ),
        Expr::Null => st.with(load_imm(st.code, a, target, 0)),
        Expr::Identifier(id) => if st.vars.contains_key(id.name@) {
            st.with(load_var_unless(st.code, a, st.vars[id.name@], target))
        } else {
            st.with(load_imm(st.code, a, target, 0))
        },
        Expr::Unary(u) => {
            let s1 = expr_code(env, ctx, st, *u.operand, target);
            match u.operator {
                UnaryOp::Neg => if a {
                    s1.with(s1.code + ins2("neg"@, target, target))
                } else {
                    s1.with(s1.code + ins2i("rsbs"@, target, target, 0))
                },
                UnaryOp::Not | UnaryOp::Bang => s1.with(s1.code + ins2i("eor"@, target, target, 1)),
                _ => s1,
            }
        },
        Expr::AssignExpr(x) => {
            let s1 = expr_code(env, ctx, st, *x.value, target);
            if x.targets@.len() > 0 {
                match x.targets@[0] {
                    Assignee::Identifier(id) => if s1.vars.contains_key(id.name@) {
                        s1.with(store_var_unless(s1.code, a, s1.vars[id.name@], target))
                    } else {
                        s1
                    },
                    _ => s1,
                }
            } else {
                s1
            }
        },
        Expr::Call(c) => call_code(env, ctx, st, c, target),
        Expr::Cast(c) => expr_code(env, ctx, st, *c.expr, target),
        Expr::Lambda(l) => lambda_code(env, ctx, st, l, target),
        Expr::TryPropagate(t) => {
            let s0 = st.with(st.code + "    @ TryPropagate: evaluate expr\n"@);
            let s1 = expr_code(env, ctx, s0, *t.expr, target);
            let o = s1.code + "    @ Check if error (value == 0 means error in raw mode)\n"@ + ins1i(
                "cmp"@,
                target,
                0,
            );
            match s1.epi {
                Some(l) => s1.with(o + ins1("beq"@, l) + "    @ Value is valid, continue\n"@),
                None => s1.with(o + "    @ (no cur_epilogue — cannot propagate, continue)\n"@),
            }
        },
        _ => st.with(load_imm(st.code, a, target, 0)),
    }
}

/// The state behind a binary operation.
pub open spec fn binary_code(env: Env, ctx: Ctx, st: Code, b: BinaryExpr, target: Seq<char>) -> Code
    decreases ctx.depth, 0nat, b, 0nat,
{
    let a = env.a64();
    match (b.operator, *b.left, *b.right) {
        (BinaryOp::Add, Expr::String_(l), Expr::String_(r)) => str_code(
            a,
            st,
            target,
            parts_text(l.parts@) + parts_text(r.parts@),
        ),
        (BinaryOp::Mul, Expr::String_(s), Expr::Integer(n)) => str_code(
            a,
            st,
            target,
            repeated(parts_text(s.parts@), (n.value as usize) as nat),
        ),
        (BinaryOp::Mul, Expr::Integer(n), Expr::String_(s)) => str_code(
            a,
            st,
            target,
            repeated(parts_text(s.parts@), (n.value as usize) as nat),
        ),
        (BinaryOp::Eq, Expr::String_(l), Expr::String_(r)) => st.with(
            load_imm(
                st.code,
                a,
                target,
                if parts_text(l.parts@) == parts_text(r.parts@) {
                    1
                } else {
                    0
                },
            ),
        ),
        (BinaryOp::Ne, Expr::String_(l), Expr::String_(r)) => st.with(
            load_imm(
                st.code,
                a,
                target,
                if parts_text(l.parts@) == parts_text(r.parts@) {
                    0
                } else {
                    1
                },
            ),
        ),
        (op, l, r) => if l is Float || r is Float {
            let s1 = expr_code(env, ctx, st, *b.left, ret(a));
            let s2 = s1.with(s1.code + ins2(fmov(a), "d8"@, ret(a)));
            let s3 = expr_code(env, ctx, s2, *b.right, tmp(a));
            s3.with(float_tail(s3.code + ins2(fmov(a), "d9"@, tmp(a)), a, op, target))
        } else if r is Integer {
            let s1 = expr_code(env, ctx, st, *b.left, ret(a));
            s1.with(imm_op(s1.code, a, op, target, r->Integer_0.value))
        } else {
            let s1 = expr_code(env, ctx, st, *b.left, ret(a));
            let s2 = s1.with(s1.code + push_reg(a, ret(a)));
            let s3 = expr_code(env, ctx, s2, *b.right, tmp(a));
            s3.with(general_op(s3.code + pop_reg(a, tmp2(a)), a, op, target))
        },
    }
}

/// The state behind the first `k` arguments, each in its argument register: put
/// there one by one where none of them can disturb those before it, and else
/// kept on the stack until all of them are known.
pub open spec fn args_code(env: Env, ctx: Ctx, st: Code, args: Seq<Expr>, k: nat) -> Code
    decreases ctx.depth, 0nat, args, args.len() + 1,
{
    if k > args.len() {
        st
    } else if plain_behind(args, k) {
        direct_args(env, ctx, st, args, k)
    } else {
        let s1 = pushed_args(env, ctx, st, args, k);
        s1.with(pop_args(s1.code, env.a64(), k))
    }
}

/// The state behind the first `k` arguments, each on the stack.
pub open spec fn pushed_args(env: Env, ctx: Ctx, st: Code, args: Seq<Expr>, k: nat) -> Code
    decreases ctx.depth, 0nat, args, k,
{
    let a = env.a64();
    if k == 0 || k > args.len() {
        st
    } else {
        let s1 = expr_code(
            env,
            ctx,
            pushed_args(env, ctx, st, args, (k - 1) as nat),
            args[k - 1],
            ret(a),
        );
        s1.with(s1.code + push_reg(a, ret(a)))
    }
}

/// Takes `k` arguments from the stack to their registers.
#[verifier::opaque]
pub open spec fn pop_args(out: Seq<char>, a64: bool, k: nat) -> Seq<char>
    decreases k,
{
    if k == 0 {
        out
    } else {
        pop_args(out + pop_reg(a64, arg_reg(a64, k - 1)), a64, (k - 1) as nat)
    }
}

/// The state behind the first `k` arguments, put into their argument registers
/// one by one.
pub open spec fn direct_args(env: Env, ctx: Ctx, st: Code, args: Seq<Expr>, k: nat) -> Code
    decreases ctx.depth, 0nat, args, k,
{
    if k == 0 || k > args.len() {
        st
    } else {
        expr_code(
            env,
            ctx,
            direct_args(env, ctx, st, args, (k - 1) as nat),
            args[k - 1],
            arg_reg(env.a64(), k - 1),
        )
    }
}

/// The state behind a real call of `name`.
pub open spec fn real_call(env: Env, ctx: Ctx, st: Code, name: Seq<char>, args: Seq<Expr>, target: Seq<char>) -> Code
    decreases ctx.depth, 0nat, args, args.len() + 2,
{
    let a = env.a64();
    let n = if args.len() < arg_len(a) {
        args.len()
    } else {
        arg_len(a) as nat
    };
    let s1 = args_code(env, ctx, st, args, n);
    s1.with(mov_ret(s1.code + ins1("bl"@, name), a, target))
}

/// The state behind a call.
pub open spec fn call_code(env: Env, ctx: Ctx, st: Code, c: CallExpr, target: Seq<char>) -> Code
    decreases ctx.depth, 0nat, c, 2nat,
{
    let a = env.a64();
    match *c.callee {
        Expr::Identifier(id) => {
            let n = id.name@;
            if is_builtin(n) {
                builtin_code(env, ctx, st, n, c, target)
            } else if ctx.depth > 0 && env.fns.contains_key(n) && inlineable(*env.fns[n])
                && env.fns[n].params@.len() == c.args@.len() {
                inline_code(
                    env,
                    Ctx { depth: (ctx.depth - 1) as nat, ..ctx },
                    st,
                    *env.fns[n],
                    c,
                    target,
                )
            } else {
                real_call(env, ctx, st, n, c.args@, target)
            }
        },
        Expr::MemberAccess(m) => {
            let n = m.member.name@;
            if n == "load"@ {
                expr_code(env, ctx, st.with(st.code + "    @ volatile load\n"@), *m.target, target)
            } else if n == "load_acquire"@ {
                let s1 = expr_code(
                    env,
                    ctx,
                    st.with(st.code + "    @ volatile load (acquire)\n"@),
                    *m.target,
                    target,
                );
                s1.with(
                    s1.code + "    @ load_acquire — acquire fence\n"@ + (if a {
                        "    dmb ishld\n"@
                    } else {
                        "    dmb ish\n"@
                    }),
                )
            } else if n == "store"@ {
                let s1 = st.with(st.code + "    @ volatile store\n"@);
                if c.args@.len() > 0 {
                    expr_code(env, ctx, s1, c.args@[0], target)
                } else {
                    expr_code(env, ctx, s1, *m.target, target)
                }
            } else if n == "store_release"@ {
                let s1 = st.with(
                    st.code + "    @ volatile store (release)\n"@
                        + "    @ store_release — release fence\n"@ + "    dmb ish\n"@,
                );
                if c.args@.len() > 0 {
                    expr_code(env, ctx, s1, c.args@[0], target)
                } else {
                    expr_code(env, ctx, s1, *m.target, target)
                }
            } else {
                expr_code(env, ctx, st, *m.target, target)
            }
        },
        _ => st.with(load_imm(st.code, a, target, 0)),
    }
}

/// The state behind argument `i`, where there is one.
pub open spec fn arg_code(env: Env, ctx: Ctx, st: Code, args: Seq<Expr>, i: int, target: Seq<char>) -> Code
    decreases ctx.depth, 0nat, args, 0nat,
{
    if 0 <= i < args.len() {
        expr_code(env, ctx, st, args[i], target)
    } else {
        st
    }
}

/// The state behind a call of a built-in.
pub open spec fn builtin_code(
    env: Env,
    ctx: Ctx,
    st: Code,
    n: Seq<char>,
    c: CallExpr,
    target: Seq<char>,
) -> Code
    decreases ctx.depth, 0nat, c, 1nat,
{
    let a = env.a64();
    if n == "memcpy"@ {
        let s1 = args_code(env, ctx, st, c.args@, three_args(c.args@));
        s1.labelled().with(
            mov_ret(
                memcpy_loop(
                    s1.code,
                    a,
                    lab(".Lmemcpy_"@, s1.labels),
                    lab(".Lmemcpy_end_"@, s1.labels),
                ),
                a,
                target,
            ),
        )
    } else if n == "memset"@ {
        let s1 = args_code(env, ctx, st, c.args@, three_args(c.args@));
        s1.labelled().with(
            mov_ret(
                memset_loop(
                    s1.code,
                    a,
                    lab(".Lmemset_"@, s1.labels),
                    lab(".Lmemset_end_"@, s1.labels),
                ),
                a,
                target,
            ),
        )
    } else if n == "spin_lock"@ {
        let s1 = arg_code(env, ctx, st, c.args@, 0, ret(a));
        s1.labelled().with(spin_loop(s1.code, a, lab(".Lspinlock_"@, s1.labels)))
    } else if n == "spin_unlock"@ {
        let s1 = arg_code(env, ctx, st, c.args@, 0, ret(a));
        s1.with(
            s1.code + "    dmb ish\n"@ + (if a {
                "    str xzr, [x0]\n"@
            } else {
                "    mov r12, #0\n    str r12, [r0]\n"@
            }),
        )
    } else if n == "tls_get"@ {
        let s1 = arg_code(env, ctx, st, c.args@, 0, tmp(a));
        s1.with(mov_ret(tls_access(s1.code, a, "ldr"@), a, target))
    } else if n == "tls_set"@ {
        let s1 = arg_code(env, ctx, st, c.args@, 0, tmp(a));
        let s2 = arg_code(env, ctx, s1, c.args@, 1, ret(a));
        s2.with(mov_ret(tls_access(s2.code, a, "str"@), a, target))
    } else if n == "offsetof"@ {
        if c.args@.len() >= 2 && c.args@[0] is String_ && c.args@[1] is String_ {
            st.with(
                load_imm(
                    st.code,
                    a,
                    target,
                    offset_of(
                        env,
                        parts_text(c.args@[0]->String__0.parts@),
                        parts_text(c.args@[1]->String__0.parts@),
                    ),
                ),
            )
        } else {
            st.with(load_imm(st.code, a, target, 0))
        }
    } else if n == "static_assert"@ {
        if c.args@.len() >= 1 && c.args@[0] is Integer && c.args@[0]->Integer_0.value == 0 {
            Code { errs: st.errs.push(assert_message(c.args@)), ..st }
        } else {
            st
        }
    } else {
        st.with(
            mov_ret(
                st.code + (if a {
                    "    mrs x0, PMCCNTR_EL0\n"@
                } else {
                    "    mrc p15, 0, r0, c9, c13, 0\n"@
                }),
                a,
                target,
            ),
        )
    }
}

/// Binds the first `k` parameters of an inlined function to pool registers.
/// The flag says whether there was a register for each of them; where there
/// was none, the state is the one in front of the parameter without register.
pub open spec fn bind_params(env: Env, ctx: Ctx, st: Code, f: FnDef, c: CallExpr, k: nat) -> (
    Code,
    bool,
)
    decreases ctx.depth, 3nat, c, k,
{
    let a = env.a64();
    if k == 0 || k > f.params@.len() || k > c.args@.len() {
        (st, true)
    } else {
        let prev = bind_params(env, ctx, st, f, c, (k - 1) as nat);
        if !prev.1 {
            prev
        } else {
            let s1 = expr_code(env, ctx, prev.0, c.args@[k - 1], ret(a));
            if s1.next >= pool_len(a) {
                (s1, false)
            } else {
                (
                    Code {
                        code: s1.code + ins2("mov"@, pool_reg(a, s1.next as int), ret(a)),
                        vars: s1.vars.insert(
                            f.params@[k - 1].name.name@,
                            VarLoc::Reg(s1.next),
                        ),
                        next: (s1.next + 1) as usize,
                        ..s1
                    },
                    true,
                )
            }
        }
    }
}

/// The state behind an inlined call, or behind a real call where the pool has
/// no register left for a parameter.
pub open spec fn inline_code(
    env: Env,
    ctx: Ctx,
    st: Code,
    f: FnDef, c: CallExpr,
    target: Seq<char>,
) -> Code
    decreases ctx.depth, 4nat, c, 0nat,
{
    let a = env.a64();
    let params = f.params@;
    let end = lab(".Linl_"@, st.labels);
    let bound = bind_params(
        env,
        ctx,
        Code { epi: Some(end), ..st.labelled() },
        f,
        c,
        params.len(),
    );
    let s1 = bound.0;
    if !bound.1 {
        let s2 = Code {
            next: st.next,
            vars: restored(s1.vars, st.vars, params, params.len()),
            ..s1
        };
        let s3 = real_call(env, ctx, s2, f.name.name@, c.args@, target);
        Code { epi: st.epi, ..s3 }
    } else {
        let s2 = stmts_code(env, ctx, s1, f.body@, f.body@.len());
        Code {
            code: mov_ret(s2.code + label_line(end), a, target),
            epi: st.epi,
            vars: restored(s2.vars, st.vars, params, params.len()),
            ..s2
        }
    }
}

/// The state behind a lambda: a new function, and its address in `target`.
pub open spec fn lambda_code(env: Env, ctx: Ctx, st: Code, l: LambdaExpr, target: Seq<char>) -> Code
    decreases ctx.depth, 0nat, l, 0nat,
{
    let a = env.a64();
    let name = lab("__lambda_"@, st.lambdas);
    let free = sorted_set(free_names(*l.body, param_names(l.params@)));
    let s1 = captures(a, Code { lambdas: bump(st.lambdas), ..st }, name, free, free.len());
    let epilogue = lab(".Lepi_"@, s1.labels);
    let s2 = bind_args(a, enter_fn(s1), l.params@, l.params@.len());
    let s3 = return_jump(a, expr_code(env, ctx, s2, *l.body, ret(a)));
    let s4 = s3.with(s3.code + zero_ret(a) + ins1("b"@, epilogue));
    Code {
        code: load_fn(s1.code, a, target, name),
        vars: s1.vars,
        off: s1.off,
        next: s1.next,
        epi: None,
        funcs: s4.funcs.push(made_fn(a, s4, name, false, pool_min(a, s4.next), epilogue)),
        ..s4
    }
}

// ---------------------------------------------------------------------------
// Statements
// ---------------------------------------------------------------------------

/// The state behind the first `k` statements.
pub open spec fn stmts_code(env: Env, ctx: Ctx, st: Code, ss: Seq<Stmt>, k: nat) -> Code
    decreases ctx.depth, 3nat, ss, k,
{
    if k == 0 || k > ss.len() {
        st
    } else {
        stmt_code(env, ctx, stmts_code(env, ctx, st, ss, (k - 1) as nat), ss[k - 1])
    }
}

/// The state behind a statement.
pub open spec fn stmt_code(env: Env, ctx: Ctx, st: Code, s: Stmt) -> Code
    decreases ctx.depth, 3nat, s, 0nat,
{
    let a = env.a64();
    match s {
        Stmt::Assign(x) => if x.targets@.len() > 0 {
            match x.targets@[0] {
                Assignee::Identifier(id) => {
                    let (loc, s1) = place_var(a, st, id.name@);
                    let s2 = expr_code(env, ctx, s1, x.value, ret(a));
                    s2.with(store_var_unless(s2.code, a, loc, ret(a)))
                },
                _ => st,
            }
        } else {
            st
        },
        Stmt::Return(r) => return_jump(
            a,
            if r.values@.len() > 0 {
                expr_code(env, ctx, st, r.values@[0], ret(a))
            } else {
                st.with(st.code + zero_ret(a))
            },
        ),
        Stmt::If(i) => if_code(env, ctx, st, i),
        Stmt::While(w) => while_code(env, ctx, st, w),
        Stmt::Loop(l) => {
            let start = lab(".Lloop_"@, st.labels);
            let end = lab(".Lloopend_"@, st.labels);
            let s1 = st.labelled().with(st.code + label_line(start));
            let s2 = stmts_code(
                env,
                Ctx { loops: ctx.loops.push((start, end)), ..ctx },
                s1,
                l.body@,
                l.body@.len(),
            );
            s2.with(s2.code + ins1("b"@, start) + label_line(end))
        },
        Stmt::Break(b) => st.with(break_text(st.code, ctx.loops, b.label)),
        Stmt::Continue(c) => st.with(continue_text(st.code, ctx.loops, c.label)),
        Stmt::ForRange(fr) => for_range_code(env, ctx, st, fr),
        Stmt::ForIn(fi) => for_in_code(env, ctx, st, fi),
        Stmt::Expr(e) => expr_code(env, ctx, st, e.expr, ret(a)),
        Stmt::Println(p) => newline_code(a, print_args(env, ctx, st, p.args@, p.args@.len())),
        Stmt::UnsafeBlock(u) => stmts_code(env, ctx, st, u.body@, u.body@.len()),
        Stmt::Asm(x) => asm_code(env, ctx, st, x),
        Stmt::Try(t) => try_code(env, ctx, st, t),
        Stmt::Throw(t) => {
            let s1 = expr_code(env, ctx, st, t.value, ret(a));
            s1.with(raise(s1.code, a))
        },
        Stmt::Panic(p) => {
            let s1 = expr_code(env, ctx, st, p.message, ret(a));
            s1.with(raise(s1.code, a))
        },
        _ => st,
    }
}

/// The jump of a `break`.
#[verifier::opaque]
pub open spec fn break_text(
    out: Seq<char>,
    loops: Seq<(Seq<char>, Seq<char>)>,
    label: Option<Identifier>,
) -> Seq<char> {
    match label {
        Some(l) => {
            let t = ".Lbreak_lbl_"@ + l.name@;
            if break_found(loops, t, l.name@) {
                out + ins1("b"@, t)
            } else {
                out + "    @ break '"@ + l.name@ + "' — label not found\n"@
            }
        },
        None => if loops.len() > 0 {
            out + ins1("b"@, loops.last().1)
        } else {
            out + "    @ break outside loop (no-op)\n"@
        },
    }
}

/// The jump of a `continue`.
#[verifier::opaque]
pub open spec fn continue_text(
    out: Seq<char>,
    loops: Seq<(Seq<char>, Seq<char>)>,
    label: Option<Identifier>,
) -> Seq<char> {
    match label {
        Some(l) => {
            let t = ".Lcont_lbl_"@ + l.name@;
            if continue_found(loops, t, l.name@) {
                out + ins1("b"@, t)
            } else {
                out + "    @ continue '"@ + l.name@ + "' — label not found\n"@
            }
        },
        None => if loops.len() > 0 {
            out + ins1("b"@, loops.last().0)
        } else {
            out + "    @ continue outside loop (no-op)\n"@
        },
    }
}

/// The state behind the condition of an `if`, with a jump to `skip` where it
/// does not hold.
pub open spec fn cond_code(env: Env, ctx: Ctx, st: Code, e: Expr, skip: Seq<char>) -> Code
    decreases ctx.depth, 2nat, e, 0nat,
{
    let a = env.a64();
    match e {
        Expr::Binary(b) => match cond_of(b.operator) {
            Some(c) => {
                let s1 = expr_code(env, ctx, st, *b.left, ret(a));
                let s2 = match *b.right {
                    Expr::Integer(i) => if -2048 <= i.value <= 2047 {
                        s1.with(s1.code + ins1i("cmp"@, ret(a), i.value as int))
                    } else {
                        s1.with(
                            load_imm(s1.code, a, tmp(a), i.value) + ins2("cmp"@, ret(a), tmp(a)),
                        )
                    },
                    _ => if plain_arg(*b.right) {
                        let s2 = expr_code(env, ctx, s1, *b.right, tmp(a));
                        s2.with(s2.code + ins2("cmp"@, ret(a), tmp(a)))
                    } else {
                        let s2 = s1.with(s1.code + push_reg(a, ret(a)));
                        let s3 = expr_code(env, ctx, s2, *b.right, tmp(a));
                        s3.with(s3.code + pop_reg(a, tmp2(a)) + ins2("cmp"@, tmp2(a), tmp(a)))
                    },
                };
                s2.with(s2.code + ins1("b"@ + inverse(c), skip))
            },
            None => plain_cond(env, ctx, st, e, skip),
        },
        _ => plain_cond(env, ctx, st, e, skip),
    }
}

/// The state behind a condition that is compared with zero.
pub open spec fn plain_cond(env: Env, ctx: Ctx, st: Code, e: Expr, skip: Seq<char>) -> Code
    decreases ctx.depth, 1nat, e, 0nat,
{
    let a = env.a64();
    let s1 = expr_code(env, ctx, st, e, ret(a));
    s1.with(s1.code + ins1i("cmp"@, ret(a), 0) + ins1("beq"@, skip))
}

/// The state behind an `if`.
pub open spec fn if_code(env: Env, ctx: Ctx, st: Code, i: IfStmt) -> Code
    decreases ctx.depth, 3nat, i, 0nat,
{
    let skip = lab(".Lelse_"@, st.labels);
    let end = lab(".Lend_"@, st.labels);
    let s1 = cond_code(env, ctx, st.labelled(), i.condition, skip);
    let s2 = stmts_code(env, ctx, s1, i.then_body@, i.then_body@.len());
    let s3 = s2.with(s2.code + ins1("b"@, end) + label_line(skip));
    let s4 = match i.else_body {
        Some(b) => stmts_code(env, ctx, s3, b@, b@.len()),
        None => s3,
    };
    s4.with(s4.code + label_line(end))
}

/// The state behind a `while`.
pub open spec fn while_code(env: Env, ctx: Ctx, st: Code, w: WhileStmt) -> Code
    decreases ctx.depth, 3nat, w, 0nat,
{
    let a = env.a64();
    let start = lab(".Lwhile_"@, st.labels);
    let end = lab(".Lwend_"@, st.labels);
    let inner = Ctx { loops: ctx.loops.push((start, end)), ..ctx };
    let s1 = expr_code(
        env,
        inner,
        st.labelled().with(st.code + label_line(start)),
        w.condition,
        ret(a),
    );
    let s2 = s1.with(s1.code + ins1i("cmp"@, ret(a), 0) + ins1("beq"@, end));
    let s3 = stmts_code(env, inner, s2, w.body@, w.body@.len());
    s3.with(s3.code + ins1("b"@, start) + label_line(end))
}

/// The state behind an optional expression; zero stands for a missing one.
pub open spec fn opt_code(env: Env, ctx: Ctx, st: Code, e: Option<Box<Expr>>, target: Seq<char>) -> Code
    decreases ctx.depth, 1nat, e, 0nat,
{
    match e {
        Some(x) => expr_code(env, ctx, st, *x, target),
        None => st.with(load_imm(st.code, env.a64(), target, 0)),
    }
}

/// The state behind the step of a counting loop, stored to `slot`; one stands
/// for a missing step.
pub open spec fn step_code(env: Env, ctx: Ctx, st: Code, e: Option<Box<Expr>>, slot: i32) -> Code
    decreases ctx.depth, 1nat, e, 0nat,
{
    let a = env.a64();
    let s1 = match e {
        Some(x) => expr_code(env, ctx, st, *x, ret(a)),
        None => st.with(
            st.code + (if a {
                "    mov x0, #1\n"@
            } else {
                "    mov r0, #1\n"@
            }),
        ),
    };
    s1.with(s1.code + mem_line("str"@, ret(a), fp(a), slot as int))
}

/// The state in front of a counting loop's bounds: a label number and two
/// stack slots.
pub open spec fn range_entry(st: Code) -> Code {
    Code { off: down8(down8(st.off)), ..st.labelled() }
}

/// The context of the body of counting loop `id`.
pub open spec fn range_ctx(ctx: Ctx, id: usize) -> Ctx {
    Ctx { loops: ctx.loops.push((lab(".Lfrincr_"@, id), lab(".Lfrend_"@, id))), ..ctx }
}

/// The state behind a counting loop.
pub open spec fn for_range_code(env: Env, ctx: Ctx, st: Code, fr: ForRangeStmt) -> Code
    decreases ctx.depth, 3nat, fr, 0nat,
{
    let a = env.a64();
    let id = st.labels;
    let bound = down8(st.off);
    let step = down8(bound);
    let s1 = expr_code(env, ctx, range_entry(st), fr.from, ret(a));
    let (loc, s2) = place_var(a, s1, fr.var.name@);
    let s3 = expr_code(env, ctx, s2.with(store_var(s2.code, a, loc, ret(a))), fr.to, ret(a));
    let s4 = s3.with(s3.code + mem_line("str"@, ret(a), fp(a), bound as int));
    let s5 = step_code(env, ctx, s4, fr.step, step);
    let s6 = s5.with(range_head(s5.code, a, id, loc, bound, step));
    let s7 = stmts_code(env, range_ctx(ctx, id), s6, fr.body@, fr.body@.len());
    s7.with(range_tail(s7.code, a, id, loc, step))
}

/// The state behind a for-in loop.
pub open spec fn for_in_code(env: Env, ctx: Ctx, st: Code, fi: ForInStmt) -> Code
    decreases ctx.depth, 3nat, fi, list_len(fi.iterable) + 1,
{
    match fi.iterable {
        Expr::String_(s) => str_loop_code(env, ctx, st, fi, parts_text(s.parts@)),
        Expr::Range(r) => range_loop_code(env, ctx, st, fi, r),
        Expr::List(l) => unrolled(env, ctx, st, fi, l.elements@.len()),
        _ => st.with(st.code + "    @ for-in: unsupported iterable type in raw mode\n"@),
    }
}

/// The state behind a loop over the bytes of the string `t`.
pub open spec fn str_loop_code(env: Env, ctx: Ctx, st: Code, fi: ForInStmt, t: Seq<char>) -> Code
    decreases ctx.depth, 3nat, fi, 0nat,
{
    let a = env.a64();
    let cond = lab(".Lfistrcond_"@, st.labels);
    let end = lab(".Lfistrend_"@, st.labels);
    let (loc, s1) = place_var(a, st.intern(t).labelled(), fi.var.name@);
    let o = str_loop_head(s1.code, a, st.strs.len(), byte_len(t) as nat, cond, end);
    let s3 = stmts_code(
        env,
        Ctx { loops: ctx.loops.push((cond, end)), ..ctx },
        s1.with(store_var(o, a, loc, ret(a))),
        fi.body@,
        fi.body@.len(),
    );
    s3.with(s3.code + ins2i("add"@, tmp(a), tmp(a), 1) + ins1("b"@, cond) + label_line(end))
}

/// The state behind a loop over a range expression.
pub open spec fn range_loop_code(env: Env, ctx: Ctx, st: Code, fi: ForInStmt, r: RangeExpr) -> Code
    decreases ctx.depth, 3nat, fi, 0nat,
{
    let a = env.a64();
    let id = st.labels;
    let bound = down8(st.off);
    let step = down8(bound);
    let s1 = opt_code(env, ctx, range_entry(st), r.start, ret(a));
    let (loc, s2) = place_var(a, s1, fi.var.name@);
    let s3 = opt_code(env, ctx, s2.with(store_var(s2.code, a, loc, ret(a))), r.end, ret(a));
    let s4 = s3.with(s3.code + mem_line("str"@, ret(a), fp(a), bound as int));
    let s5 = step_code(env, ctx, s4, r.step, step);
    let s6 = s5.with(range_head(s5.code, a, id, loc, bound, step));
    let s7 = stmts_code(env, range_ctx(ctx, id), s6, fi.body@, fi.body@.len());
    s7.with(range_tail(s7.code, a, id, loc, step))
}

/// The state behind the first `k` passes of a loop over a list literal.
pub open spec fn unrolled(env: Env, ctx: Ctx, st: Code, fi: ForInStmt, k: nat) -> Code
    decreases ctx.depth, 3nat, fi, k,
{
    let a = env.a64();
    let elems = fi.iterable->List_0.elements@;
    if k == 0 || k > list_len(fi.iterable) {
        st
    } else {
        let prev = unrolled(env, ctx, st, fi, (k - 1) as nat);
        let s1 = expr_code(env, ctx, prev, elems[k - 1], ret(a));
        let (loc, s2) = place_var(a, s1, fi.var.name@);
        stmts_code(
            env,
            ctx,
            s2.with(store_var(s2.code, a, loc, ret(a))),
            fi.body@,
            fi.body@.len(),
        )
    }
}

/// The state behind the first `k` printed values.
pub open spec fn print_args(env: Env, ctx: Ctx, st: Code, args: Seq<Expr>, k: nat) -> Code
    decreases ctx.depth, 1nat, args, k,
{
    let a = env.a64();
    if k == 0 || k > args.len() {
        st
    } else {
        let prev = print_args(env, ctx, st, args, (k - 1) as nat);
        match args[k - 1] {
            Expr::String_(s) => {
                let t = parts_text(s.parts@);
                prev.intern(t).with(
                    write_str(prev.code, a, prev.strs.len(), byte_len(t) as nat),
                )
            },
            Expr::Float(_) => print_float_code(a, expr_code(env, ctx, prev, args[k - 1], ret(a))),
            _ => print_int_code(a, expr_code(env, ctx, prev, args[k - 1], ret(a))),
        }
    }
}

/// The state behind the first `k` inline assembly inputs, each in its operand
/// register; `base` operands come first.
pub open spec fn inputs_code(env: Env, ctx: Ctx, st: Code, ops: Seq<AsmOperand>, base: nat, k: nat) -> Code
    decreases ctx.depth, 1nat, ops, k,
{
    if k == 0 || k > ops.len() {
        st
    } else {
        expr_code(
            env,
            ctx,
            inputs_code(env, ctx, st, ops, base, (k - 1) as nat),
            ops[k - 1].expr,
            scratch_reg(env.a64(), base + k - 1),
        )
    }
}

/// The state behind an inline assembly block.
pub open spec fn asm_code(env: Env, ctx: Ctx, st: Code, x: AsmStmt) -> Code
    decreases ctx.depth, 2nat, x, 0nat,
{
    let a = env.a64();
    let outs = x.outputs@;
    let ins = x.inputs@;
    let total = outs.len() + ins.len();
    let o1 = template_comments(st.code, x);
    let ls = lines(x.template@);
    if total > scratch_len(a) {
        st.with(
            o1 + "    @ too many operands ("@ + dec(total) + " > "@ + dec(scratch_len(a) as nat)
                + "); emitting template verbatim\n"@ + template_lines(ls, None, ls.len()),
        )
    } else {
        let s1 = inputs_code(env, ctx, st.with(o1), ins, outs.len(), ins.len());
        let o2 = s1.code + template_lines(ls, Some(scratch_regs(a, total)), ls.len());
        s1.with(store_outputs(o2, a, s1.vars, outs, outs.len()))
    }
}

/// The state behind the statements of an optional block.
pub open spec fn block_code(env: Env, ctx: Ctx, st: Code, b: Option<Vec<Stmt>>) -> Code
    decreases ctx.depth, 3nat, b, 0nat,
{
    match b {
        Some(v) => stmts_code(env, ctx, st, v@, v@.len()),
        None => st,
    }
}

/// The state behind a `try`.
pub open spec fn try_code(env: Env, ctx: Ctx, st: Code, t: TryStmt) -> Code
    decreases ctx.depth, 3nat, t, 0nat,
{
    let a = env.a64();
    let catch_label = lab(".Lcatch_"@, st.labels);
    let end = lab(".Ltryend_"@, st.labels);
    let s1 = stmts_code(
        env,
        ctx,
        st.labelled().with(push_handler(st.code, a, catch_label)),
        t.try_body@,
        t.try_body@.len(),
    );
    let s2 = block_code(env, ctx, s1.with(s1.code + pop_handler(a)), t.finally_body);
    let s3 = s2.with(s2.code + ins1("b"@, end) + label_line(catch_label) + pop_handler(a));
    let s4 = match t.catch_var {
        Some(v) => {
            let (loc, s) = place_var(a, s3, v.name@);
            s.with(store_var(s.code, a, loc, ret(a)))
        },
        None => s3,
    };
    let s5 = block_code(env, ctx, s4, t.catch_body);
    let s6 = block_code(env, ctx, s5, t.finally_body);
    s6.with(s6.code + label_line(end))
}


// ---------------------------------------------------------------------------
// Functions and programs
// ---------------------------------------------------------------------------

/// The context of a function body.
pub open spec fn top_ctx() -> Ctx {
    Ctx { depth: 3, loops: Seq::empty() }
}

/// The loop that stands for a doubly recursive Fibonacci function.
#[verifier::opaque]
pub open spec fn fib_text(a64: bool, epi: Seq<char>, n: usize) -> Seq<char> {
    let l = lab(".Lfib_loop_"@, n);
    let done = lab(".Lfib_done_"@, n);
    let base = lab(".Lfib_base_"@, n);
    let o = Seq::<char>::empty();
    if a64 {
        o + "    cmp x0, #1\n"@ + ins1("ble"@, base)
            + "    mov x19, #0\n    mov x20, #1\n    mov x21, #2\n"@ + label_line(l)
            + "    cmp x21, x0\n"@ + ins1("bgt"@, done)
            + "    add x22, x19, x20\n    mov x19, x20\n    mov x20, x22\n    add x21, x21, #1\n"@
            + ins1("b"@, l) + label_line(done) + "    mov x0, x20\n"@ + ins1("b"@, epi)
            + label_line(base) + ins1("b"@, epi)
    } else {
        o + "    cmp r0, #1\n"@ + ins1("ble"@, base)
            + "    mov r4, #0\n    mov r5, #1\n    mov r6, #2\n"@ + label_line(l)
            + "    cmp r6, r0\n"@ + ins1("bgt"@, done)
            + "    add r7, r4, r5\n    mov r4, r5\n    mov r5, r7\n    add r6, r6, #1\n"@ + ins1(
            "b"@,
            l,
        ) + label_line(done) + "    mov r0, r5\n"@ + ins1("b"@, epi) + label_line(base) + ins1(
            "b"@,
            epi,
        )
    }
}

/// The state behind the destructor calls of the first `k` variables.
#[verifier::opaque]
pub open spec fn dtors_code(env: Env, st: Code, vars: Seq<(Seq<char>, Seq<char>)>, k: nat) -> Code
    decreases k,
{
    if k == 0 || k > vars.len() {
        st
    } else {
        let prev = dtors_code(env, st, vars, (k - 1) as nat);
        let t = vars[k - 1].1;
        let s1 = prev.with(
            prev.code + "    @ dtor: calling ~"@ + t + " for "@ + vars[k - 1].0 + "\n"@,
        );
        if env.dtors.contains_key(t) {
            stmts_code(env, top_ctx(), s1, env.dtors[t].body@, env.dtors[t].body@.len())
        } else {
            s1
        }
    }
}

/// The label that the body of `f` leaves by: that of its destructors, or else
/// its epilogue.
pub open spec fn exit_label(env: Env, st: Code, f: FnDef) -> Seq<char> {
    if dtor_vars(env.dtors.dom(), f.body@, f.body@.len()).len() == 0 {
        lab(".Lepi_"@, st.labels)
    } else {
        lab(".Lcleanup_"@, enter_fn(st).labels)
    }
}

/// The state in which the statements of `f` are compiled.
pub open spec fn body_entry(env: Env, st: Code, f: FnDef) -> Code {
    let a = env.a64();
    let s0 = enter_fn(st);
    let s1 = if dtor_vars(env.dtors.dom(), f.body@, f.body@.len()).len() == 0 {
        s0
    } else {
        Code { epi: Some(exit_label(env, st, f)), ..s0.labelled() }
    };
    if f.name.name@ == "main"@ {
        s1
    } else {
        bind_args(a, s1, f.params@, f.params@.len())
    }
}

/// The state in which the body of `f` has been compiled, with its destructor
/// calls and its jumps to the epilogue.
pub open spec fn fn_body(env: Env, st: Code, f: FnDef) -> Code {
    let a = env.a64();
    let epilogue = lab(".Lepi_"@, st.labels);
    let vars = dtor_vars(env.dtors.dom(), f.body@, f.body@.len());
    let exit = exit_label(env, st, f);
    let s2 = body_entry(env, st, f);
    let s3 = stmts_code(env, top_ctx(), s2, f.body@, f.body@.len());
    let s4 = s3.with(s3.code + zero_ret(a) + ins1("b"@, exit));
    if vars.len() == 0 {
        s4
    } else {
        let s5 = dtors_code(
            env,
            Code { epi: Some(epilogue), ..s4.with(s4.code + label_line(exit)) },
            vars,
            vars.len(),
        );
        s5.with(s5.code + ins1("b"@, epilogue))
    }
}

/// The state behind a function definition.
pub open spec fn fn_code(env: Env, st: Code, f: FnDef) -> Code {
    let a = env.a64();
    let main = f.name.name@ == "main"@;
    let epilogue = lab(".Lepi_"@, st.labels);
    if !main && fib_shape(f) {
        let n = bump(st.labels);
        Code {
            labels: bump(n),
            funcs: st.funcs.push(
                Func {
                    name: f.name.name@,
                    code: fib_text(a, epilogue, n),
                    is_main: false,
                    saved: 4,
                    frame: 0,
                    epilogue,
                },
            ),
            ..st
        }
    } else {
        let s = fn_body(env, st, f);
        Code {
            code: st.code,
            vars: st.vars,
            off: st.off,
            next: st.next,
            epi: None,
            funcs: s.funcs.push(
                made_fn(
                    a,
                    s,
                    f.name.name@,
                    main,
                    if main {
                        0
                    } else {
                        pool_min(a, s.next)
                    },
                    epilogue,
                ),
            ),
            ..s
        }
    }
}

/// The state behind the function definitions among the first `k` declarations.
#[verifier::opaque]
pub open spec fn fns_code(env: Env, st: Code, decls: Seq<&TopLevel>, k: nat) -> Code
    decreases k,
{
    if k == 0 || k > decls.len() {
        st
    } else {
        let prev = fns_code(env, st, decls, (k - 1) as nat);
        match *decls[k - 1] {
            TopLevel::FnDef(f) => fn_code(env, prev, f),
            _ => prev,
        }
    }
}

/// The state behind the statements among the first `k` declarations.
#[verifier::opaque]
pub open spec fn top_code(env: Env, st: Code, decls: Seq<&TopLevel>, k: nat) -> Code
    decreases k,
{
    if k == 0 || k > decls.len() {
        st
    } else {
        let prev = top_code(env, st, decls, (k - 1) as nat);
        match *decls[k - 1] {
            TopLevel::Statement(s) => stmt_code(env, top_ctx(), prev, s),
            _ => prev,
        }
    }
}

/// Ends the process.
#[verifier::opaque]
pub open spec fn exit_call(a64: bool) -> Seq<char> {
    if a64 {
        "    mov x0, #0\n    mov x8, #93\n    svc #0\n"@
    } else {
        "    mov r0, #0\n    mov r7, #1\n    svc #0\n"@
    }
}

/// The state behind a `main` made of the program's statements.
pub open spec fn main_code(env: Env, st: Code, decls: Seq<&TopLevel>) -> Code {
    let a = env.a64();
    let s1 = top_code(env, enter_fn(st), decls, decls.len());
    let s2 = s1.with(s1.code + exit_call(a));
    Code {
        code: st.code,
        vars: st.vars,
        off: st.off,
        next: st.next,
        epi: None,
        funcs: s2.funcs.push(
            made_fn(a, s2, "main"@, true, pool_min(a, s2.next), lab(".Lepi_"@, st.labels)),
        ),
        ..s2
    }
}

/// The state behind a whole program.
pub open spec fn program_code(env: Env, st: Code, decls: Seq<&TopLevel>) -> Code {
    let s = fns_code(env, st, decls, decls.len());
    if any_main(s.funcs) {
        s
    } else {
        main_code(env, s, decls)
    }
}

// ---------------------------------------------------------------------------
// The assembly file
// ---------------------------------------------------------------------------

/// Saves callee-saved registers in pairs, from register `i` on.
#[verifier::opaque]
pub open spec fn save_pairs(out: Seq<char>, n: int, i: int) -> Seq<char>
    decreases n - i,
{
    if i + 1 < n {
        save_pairs(
            out + "    stp "@ + pool_reg(true, i) + ", "@ + pool_reg(true, i + 1)
                + ", [sp, #-16]!\n"@,
            n,
            i + 2,
        )
    } else if i < n {
        out + "    str "@ + pool_reg(true, i) + ", [sp, #-16]!\n"@
    } else {
        out
    }
}

/// Restores callee-saved registers in pairs, below register `i`.
#[verifier::opaque]
pub open spec fn restore_pairs(out: Seq<char>, i: int) -> Seq<char>
    decreases i,
{
    if i >= 2 {
        restore_pairs(
            out + "    ldp "@ + pool_reg(true, i - 2) + ", "@ + pool_reg(true, i - 1)
                + ", [sp], #16\n"@,
            i - 2,
        )
    } else {
        out
    }
}

/// The first `k` callee-saved registers.
pub open spec fn pool_list(a64: bool, k: nat) -> Seq<Seq<char>> {
    Seq::new(k, |i: int| pool_reg(a64, i))
}

/// The least multiple of `a` that is at least `n`.
pub open spec fn ceil_to(n: int, a: int) -> int {
    ((n + a - 1) / a) * a
}

/// The entry sequence of a function.
#[verifier::opaque]
pub open spec fn prologue(out: Seq<char>, a64: bool, f: Func) -> Seq<char> {
    let o1 = if a64 {
        save_pairs(
            out + "    stp x29, x30, [sp, #-16]!\n    mov x29, sp\n"@,
            f.saved as int,
            0,
        )
    } else {
        let o = out + "    push {r11, lr}\n    mov r11, sp\n"@;
        if f.saved > 0 {
            o + "    push {"@ + joined(pool_list(false, f.saved as nat), ", "@) + "}\n"@
        } else {
            o
        }
    };
    if f.frame > 0 {
        o1 + "    sub sp, sp, #"@ + dec(ceil_to(f.frame, stack_align(a64)) as nat) + "\n"@
    } else {
        o1
    }
}

/// The exit sequence of a function.
#[verifier::opaque]
pub open spec fn epilogue_text(out: Seq<char>, a64: bool, f: Func) -> Seq<char> {
    let o0 = out + label_line(f.epilogue);
    let o1 = if f.frame > 0 {
        o0 + "    add sp, sp, #"@ + dec(ceil_to(f.frame, stack_align(a64)) as nat) + "\n"@
    } else {
        o0
    };
    if a64 {
        let odd = f.saved as int % 2 == 1;
        restore_pairs(
            if odd {
                o1 + "    ldr "@ + pool_reg(true, f.saved - 1) + ", [sp], #16\n"@
            } else {
                o1
            },
            if odd {
                f.saved - 1
            } else {
                f.saved as int
            },
        ) + "    ldp x29, x30, [sp], #16\n    ret\n"@
    } else {
        (if f.saved > 0 {
            o1 + "    pop {"@ + joined(pool_list(false, f.saved as nat), ", "@) + "}\n"@
        } else {
            o1
        }) + "    pop {r11, pc}\n"@
    }
}

/// A whole function.
#[verifier::opaque]
pub open spec fn fn_text(out: Seq<char>, a64: bool, f: Func) -> Seq<char> {
    epilogue_text(prologue(out + label_line(f.name), a64, f) + f.code, a64, f) + "\n"@
}

/// The first `k` functions.
#[verifier::opaque]
pub open spec fn fns_text(out: Seq<char>, a64: bool, funcs: Seq<Func>, k: nat) -> Seq<char>
    decreases k,
{
    if k == 0 || k > funcs.len() {
        out
    } else {
        fn_text(fns_text(out, a64, funcs, (k - 1) as nat), a64, funcs[k - 1])
    }
}

/// The alignment markers of the first `k` aligned structs.
#[verifier::opaque]
pub open spec fn aligns_text(out: Seq<char>, aligns: Seq<(Seq<char>, u64)>, k: nat) -> Seq<char>
    decreases k,
{
    if k == 0 || k > aligns.len() {
        out
    } else {
        let n = aligns[k - 1].0;
        let v = dec(aligns[k - 1].1 as nat);
        aligns_text(out, aligns, (k - 1) as nat) + "@ struct '"@ + n + "' aligned to "@ + v
            + "-byte boundary (@align("@ + v + "))\n.balign "@ + v + "\n.L"@ + n
            + "_align_marker:\n    .skip 0\n"@
    }
}

/// The head of the file: comments, and the entry point.
#[verifier::opaque]
pub open spec fn file_head(arch: Seq<char>, a64: bool) -> Seq<char> {
    let o = Seq::<char>::empty() + "# Vredrs raw-mode "@ + arch + " native output\n# Target: "@ + arch
        + "\n# Generated by vredrs build --raw\n# No GC, no scheduler, no reflection — zero overhead.\n\n"@;
    (if a64 {
        o
    } else {
        o + ".syntax unified\n.thumb\n"@
    }) + ".text\n.global _start\n\n_start:\n"@ + (if a64 {
        "    mov x0, #0\n    bl main\n    mov x8, #93\n    svc #0\n\n"@
    } else {
        "    mov r0, #0\n    bl main\n    mov r7, #1\n    svc #0\n\n"@
    })
}

/// The assembly file of a compiled program.
pub open spec fn elf_text(env: Env, st: Code) -> Seq<char> {
    let a = env.a64();
    let o1 = fns_text(file_head(env.arch, a), a, st.funcs, st.funcs.len());
    let o2 = if st.strs.len() > 0 {
        let o = strs_text(o1 + ".section .rodata\n.balign 8\n"@, st.strs, st.strs.len());
        if a {
            o
        } else {
            o + ".ltorg\n"@
        }
    } else {
        o1
    };
    aligns_text(
        o2
            + ".section .bss\n.balign 8\n__handler_stack:\n    .skip 8192\n__handler_idx:\n    .skip 8\n"@,
        env.aligns,
        env.aligns.len(),
    )
}

/// The result of compiling a program: the assembly file, or the failed static
/// assertions.
pub open spec fn compile_result(env: Env, st: Code, decls: Seq<&TopLevel>) -> Result<
    Seq<char>,
    Seq<char>,
> {
    if st.errs.len() > 0 {
        Err(joined(st.errs, "\n"@))
    } else {
        let t = elf_text(env, st);
        let c = dtor_comments(decls, decls.len());
        Ok(
            if c.len() > 0 {
                insert_before(t, ".text"@, c)
            } else {
                t
            },
        )
    }
}

// ---------------------------------------------------------------------------
// Programs that can be compiled
// ---------------------------------------------------------------------------

/// The state of a new generator.
pub open spec fn fresh_code() -> Code {
    Code {
        code: Seq::empty(),
        vars: Map::empty(),
        off: 0,
        next: 0,
        funcs: Seq::empty(),
        strs: Seq::empty(),
        errs: Seq::empty(),
        labels: 0,
        lambdas: 0,
        epi: None,
    }
}

/// What the architecture can take.
pub open spec fn target_of(a64: bool) -> Target {
    Target { args: arg_len(a64), scratch: scratch_len(a64), strict: false }
}

// ---------------------------------------------------------------------------
// Laws
// ---------------------------------------------------------------------------

/// Every compiled program has a `main`: its own, or one made of its statements.
pub proof fn law_programs_have_a_main(env: Env, st: Code, decls: Seq<&TopLevel>)
    ensures
        any_main(program_code(env, st, decls).funcs),
{
    let s = fns_code(env, st, decls, decls.len());
    if !any_main(s.funcs) {
        let all = main_code(env, s, decls).funcs;
        assert(all[all.len() - 1].is_main);
    }
}

/// Calls are inlined only so deep: at the end of the depth that a context
/// allows, every call of a function is a real call.
pub proof fn law_inlining_is_bounded(env: Env, ctx: Ctx, st: Code, c: CallExpr, target: Seq<char>)
    requires
        ctx.depth == 0,
        *c.callee matches Expr::Identifier(id) && !is_builtin(id.name@),
    ensures
        *c.callee matches Expr::Identifier(id) && call_code(env, ctx, st, c, target) == real_call(
            env,
            ctx,
            st,
            id.name@,
            c.args@,
            target,
        ),
{
}

/// A frame is a multiple of the stack alignment: of 16 bytes on AArch64, where
/// the saved registers take a multiple of 16 bytes too, and of 8 bytes on ARM32.
pub proof fn law_frames_are_aligned(a64: bool, off: i32, saved: usize)
    ensures
        slot_bytes(a64, off, saved) % stack_align(a64) == 0,
        ceil_to(slot_bytes(a64, off, saved), stack_align(a64)) == slot_bytes(a64, off, saved),
        a64 ==> (16 + saved_bytes(a64, saved) + slot_bytes(a64, off, saved)) % 16 == 0,
{
    if a64 {
        assert(stack_align(a64) == 16);
    } else {
        assert(stack_align(a64) == 8);
    }
}

/// Every slot lies in the frame: below the saved registers, which stand under
/// the frame pointer, and above the stack pointer.
pub proof fn law_slots_lie_below_the_saved_registers(
    a64: bool,
    off: i32,
    saved: usize,
    slot: int,
)
    requires
        saved <= pool_len(a64),
        off <= slot <= SLOTS_TOP - 8,
    ensures
        slot + 8 <= -saved_bytes(a64, saved),
        slot >= -(saved_bytes(a64, saved) + slot_bytes(a64, off, saved)),
{
    if a64 {
        assert(stack_align(a64) == 16);
    } else {
        assert(stack_align(a64) == 8);
    }
}

} // verus!
