//! What AArch64 and ARM32 assembly text does.
//!
//! A processor runs the lines of straight-line code and of branches forward. The
//! laws say that the text of expressions and conditions computes what they
//! mean.

use vstd::prelude::*;
use vstd::arithmetic::power2::pow2;
use crate::ast::{BinaryExpr, BinaryOp, Expr, UnaryOp};
use crate::cstar::raw::arm_model::{
    add_imm, binary_code, Code, cond_code, cond_of, cset, expr_code, fp, general_op, imm_op,
    inverse, load_imm, load_var, load_var_unless, movk_line, plain_cond, pool_len, pool_reg,
    pop_reg, push_reg, reg_op, reg_prefix, ret, set_compare, sub_imm, tmp, tmp2, tmp3,
};
use crate::cstar::raw::common::{plain_arg, VarLoc};
use crate::cstar::raw::flow::simple;
use crate::cstar::raw::lines::{ins1, ins1i, ins2, ins2i, ins3, ins4, mem_line};
use crate::cstar::raw::model::{Ctx, Env};
use crate::meaning::{
    any_bits, both_bits, compares, fits, left_behind, lemma_ranges, magnitude, other_bits,
    truncated, truth, value, wrapped,
};
use crate::text::{dec, int_dec, lemma_dec_differs};

verus! {

// ---------------------------------------------------------------------------
// Lines
// ---------------------------------------------------------------------------

/// A line of assembly text.
pub enum Ins {
    /// `m d, #v`
    Imm(Seq<char>, Seq<char>, int),
    /// `movk d, #v, lsl #s`
    Keep(Seq<char>, nat, Seq<char>),
    /// `m d, s`
    Two(Seq<char>, Seq<char>, Seq<char>),
    /// `m d, s, #v`
    TwoImm(Seq<char>, Seq<char>, Seq<char>, int),
    /// `m d, a, b`
    Three(Seq<char>, Seq<char>, Seq<char>, Seq<char>),
    /// `mov d, a, m b`
    Shift(Seq<char>, Seq<char>, Seq<char>, Seq<char>),
    /// `msub d, n, m, a` or `mls d, n, m, a`
    Four(Seq<char>, Seq<char>, Seq<char>, Seq<char>, Seq<char>),
    /// `movc d, #1` or `movc d, #0`
    MoveIf(Seq<char>, Seq<char>, bool),
    /// The register goes to the stack.
    Push(bool, Seq<char>),
    /// The register comes from the stack.
    Pop(bool, Seq<char>),
    /// `ldr d, [base, #o]`
    Load(Seq<char>, Seq<char>, int),
    /// `str s, [base, #o]`
    Store(Seq<char>, Seq<char>, int),
    /// `m label`
    Branch(Seq<char>, Seq<char>),
    /// `label:`
    Label(Seq<char>),
}

/// The text of a line.
pub open spec fn ins_text(i: Ins) -> Seq<char> {
    match i {
        Ins::Imm(m, d, v) => "    "@ + m + " "@ + d + ", #"@ + int_dec(v) + "\n"@,
        Ins::Keep(d, v, s) => "    movk "@ + d + ", #"@ + dec(v) + ", lsl #"@ + s + "\n"@,
        Ins::Two(m, d, s) => "    "@ + m + " "@ + d + ", "@ + s + "\n"@,
        Ins::TwoImm(m, d, s, v) => "    "@ + m + " "@ + d + ", "@ + s + ", #"@ + int_dec(v) + "\n"@,
        Ins::Three(m, d, a, b) => "    "@ + m + " "@ + d + ", "@ + a + ", "@ + b + "\n"@,
        Ins::Shift(m, d, a, b) => "    "@ + "mov"@ + " "@ + d + ", "@ + a + ", "@ + (m + " "@ + b) + "\n"@,
        Ins::Four(m, d, n, k, a) => "    "@ + m + " "@ + d + ", "@ + n + ", "@ + k + ", "@ + a + "\n"@,
        Ins::MoveIf(c, d, one) => "    mov"@ + c + " "@ + d + (if one {
            ", #1\n"@
        } else {
            ", #0\n"@
        }),
        Ins::Push(a64, r) => if a64 {
            "    str "@ + r + ", [sp, #-16]!\n"@
        } else {
            "    push {"@ + r + "}\n"@
        },
        Ins::Pop(a64, r) => if a64 {
            "    ldr "@ + r + ", [sp], #16\n"@
        } else {
            "    pop {"@ + r + "}\n"@
        },
        Ins::Load(d, base, o) => "    "@ + "ldr"@ + " "@ + d + ", ["@ + base + ", #"@ + int_dec(o) + "]\n"@,
        Ins::Store(s, base, o) => "    "@ + "str"@ + " "@ + s + ", ["@ + base + ", #"@ + int_dec(o) + "]\n"@,
        Ins::Branch(m, l) => "    "@ + m + " "@ + l + "\n"@,
        Ins::Label(l) => l + ":\n"@,
    }
}

/// The text with more lines.
pub open spec fn with_code(o: Seq<char>, code: Seq<Ins>) -> Seq<char>
    decreases code.len(),
{
    if code.len() == 0 {
        o
    } else {
        with_code(o, code.drop_last()) + ins_text(code.last())
    }
}

// ---------------------------------------------------------------------------
// The processor
// ---------------------------------------------------------------------------

/// The bits of a register.
pub open spec fn width(a64: bool) -> nat {
    if a64 {
        64
    } else {
        32
    }
}

/// The state of the processor: registers, the slots of the frame by their offset,
/// what was pushed, the operands of the last comparison, and the label that a
/// branch has gone to and that has not been met yet.
pub struct Cpu {
    pub a64: bool,
    pub regs: Map<Seq<char>, int>,
    pub slots: Map<int, int>,
    pub stack: Seq<int>,
    pub compared: (int, int),
    pub at: Option<Seq<char>>,
}

impl Cpu {
    /// The same state with another value in a register.
    pub open spec fn set(self, r: Seq<char>, v: int) -> Cpu {
        Cpu { regs: self.regs.insert(r, v), ..self }
    }

    /// The bits of a register.
    pub open spec fn bits(self) -> nat {
        width(self.a64)
    }
}

/// The value of an operation on two operands.
pub open spec fn computed(m: Seq<char>, l: int, r: int, bits: nat) -> Option<int> {
    if m == "add"@ {
        Some(wrapped(l + r, bits))
    } else if m == "sub"@ {
        Some(wrapped(l - r, bits))
    } else if m == "rsbs"@ {
        Some(wrapped(r - l, bits))
    } else if m == "mul"@ {
        Some(wrapped(l * r, bits))
    } else if m == "sdiv"@ {
        if r != 0 && fits(truncated(l, r), bits) {
            Some(truncated(l, r))
        } else {
            None
        }
    } else if m == "and"@ {
        Some(both_bits(l, r))
    } else if m == "orr"@ {
        Some(any_bits(l, r))
    } else if m == "eor"@ {
        Some(other_bits(l, r))
    } else if m == "lsl"@ && 0 <= r < bits {
        Some(wrapped(l * pow2(r as nat), bits))
    } else if m == "asr"@ && 0 <= r < bits {
        Some(l / (pow2(r as nat) as int))
    } else {
        None
    }
}

/// The condition code holds behind the comparison of `l` with `r`.
pub open spec fn code_holds(c: Seq<char>, l: int, r: int) -> Option<bool> {
    if c == "eq"@ {
        Some(l == r)
    } else if c == "ne"@ {
        Some(l != r)
    } else if c == "lt"@ {
        Some(l < r)
    } else if c == "gt"@ {
        Some(l > r)
    } else if c == "le"@ {
        Some(l <= r)
    } else if c == "ge"@ {
        Some(l >= r)
    } else {
        None
    }
}

/// The branch is taken behind the comparison of `l` with `r`.
pub open spec fn taken(m: Seq<char>, l: int, r: int) -> Option<bool> {
    if m == "b"@ {
        Some(true)
    } else if m == "beq"@ {
        Some(l == r)
    } else if m == "bne"@ {
        Some(l != r)
    } else if m == "blt"@ {
        Some(l < r)
    } else if m == "bgt"@ {
        Some(l > r)
    } else if m == "ble"@ {
        Some(l <= r)
    } else if m == "bge"@ {
        Some(l >= r)
    } else {
        None
    }
}

/// The place of the bits that `movk` replaces.
pub open spec fn place(s: Seq<char>) -> Option<int> {
    if s == "16"@ {
        Some(0x1_0000)
    } else if s == "32"@ {
        Some(0x1_0000_0000)
    } else if s == "48"@ {
        Some(0x1_0000_0000_0000)
    } else {
        None
    }
}

/// The word `x` with sixteen bits at the place `p` replaced by `v`.
pub open spec fn replaced(x: int, p: int, v: int, bits: nat) -> int {
    wrapped(x - ((x / p) % 65536) * p + v * p, bits)
}

/// What a line does; none where it has no meaning.
pub open spec fn effect(c: Cpu, i: Ins) -> Option<Cpu> {
    match i {
        Ins::Imm(m, d, v) => if m == "mov"@ {
            Some(c.set(d, v))
        } else if m == "movn"@ {
            Some(c.set(d, -1 - v))
        } else if !c.regs.contains_key(d) {
            None
        } else if m == "movt"@ && !c.a64 {
            Some(c.set(d, replaced(c.regs[d], 0x1_0000, v, 32)))
        } else if m == "cmp"@ {
            Some(Cpu { compared: (c.regs[d], v), ..c })
        } else {
            None
        },
        Ins::Keep(d, v, s) => match place(s) {
            Some(p) if c.a64 && c.regs.contains_key(d) => Some(
                c.set(d, replaced(c.regs[d], p, v as int, 64)),
            ),
            _ => None,
        },
        Ins::Two(m, d, s) => if m == "cset"@ && c.a64 {
            match code_holds(s, c.compared.0, c.compared.1) {
                Some(b) => Some(c.set(d, truth(b))),
                None => None,
            }
        } else if !c.regs.contains_key(s) {
            None
        } else if m == "mov"@ {
            Some(c.set(d, c.regs[s]))
        } else if m == "neg"@ {
            Some(c.set(d, wrapped(-c.regs[s], c.bits())))
        } else if m == "cmp"@ && c.regs.contains_key(d) {
            Some(Cpu { compared: (c.regs[d], c.regs[s]), ..c })
        } else {
            None
        },
        Ins::TwoImm(m, d, s, v) => if c.regs.contains_key(s) {
            match computed(m, c.regs[s], v, c.bits()) {
                Some(x) => Some(c.set(d, x)),
                None => None,
            }
        } else {
            None
        },
        Ins::Three(m, d, a, b) => if c.regs.contains_key(a) && c.regs.contains_key(b) {
            match computed(m, c.regs[a], c.regs[b], c.bits()) {
                Some(x) => Some(c.set(d, x)),
                None => None,
            }
        } else {
            None
        },
        Ins::Shift(m, d, a, b) => if !c.a64 && c.regs.contains_key(a) && c.regs.contains_key(b) && (
        m == "lsl"@ || m == "asr"@) {
            match computed(m, c.regs[a], c.regs[b], c.bits()) {
                Some(x) => Some(c.set(d, x)),
                None => None,
            }
        } else {
            None
        },
        Ins::Four(m, d, n, k, a) => if c.regs.contains_key(n) && c.regs.contains_key(k)
            && c.regs.contains_key(a) && m == (if c.a64 {
            "msub"@
        } else {
            "mls"@
        }) {
            Some(c.set(d, wrapped(c.regs[a] - c.regs[n] * c.regs[k], c.bits())))
        } else {
            None
        },
        Ins::MoveIf(k, d, one) => match code_holds(k, c.compared.0, c.compared.1) {
            Some(b) if !c.a64 => Some(
                if b {
                    c.set(d, truth(one))
                } else {
                    c
                },
            ),
            _ => None,
        },
        Ins::Push(a64, r) => if c.regs.contains_key(r) && a64 == c.a64 {
            Some(Cpu { stack: c.stack.push(c.regs[r]), ..c })
        } else {
            None
        },
        Ins::Pop(a64, r) => if c.stack.len() > 0 && a64 == c.a64 {
            Some(Cpu { stack: c.stack.drop_last(), ..c.set(r, c.stack.last()) })
        } else {
            None
        },
        Ins::Load(d, base, o) => if c.slots.contains_key(o) && base == fp(c.a64) {
            Some(c.set(d, c.slots[o]))
        } else {
            None
        },
        Ins::Store(s, base, o) => if c.regs.contains_key(s) && base == fp(c.a64) {
            Some(Cpu { slots: c.slots.insert(o, c.regs[s]), ..c })
        } else {
            None
        },
        Ins::Branch(m, l) => match taken(m, c.compared.0, c.compared.1) {
            Some(b) => Some(
                if b {
                    Cpu { at: Some(l), ..c }
                } else {
                    c
                },
            ),
            None => None,
        },
        Ins::Label(_) => Some(c),
    }
}

/// The state behind a line. Behind a branch every line is passed over up to the
/// label that it goes to.
pub open spec fn after_ins(c: Cpu, i: Ins) -> Option<Cpu> {
    match c.at {
        Some(l) => Some(
            if i == Ins::Label(l) {
                Cpu { at: None, ..c }
            } else {
                c
            },
        ),
        None => effect(c, i),
    }
}

/// The state behind lines.
pub open spec fn after(c: Cpu, code: Seq<Ins>) -> Option<Cpu>
    decreases code.len(),
{
    if code.len() == 0 {
        Some(c)
    } else {
        match after(c, code.drop_last()) {
            Some(d) => after_ins(d, code.last()),
            None => None,
        }
    }
}

/// The text `to` goes on from `from` by lines that lead from `c` to `d`.
pub open spec fn leads(from: Seq<char>, to: Seq<char>, c: Cpu, d: Cpu) -> bool {
    exists|code: Seq<Ins>| to == #[trigger] with_code(from, code) && after(c, code) == Some(d)
}

/// No line.
pub proof fn lemma_leads_self(x: Seq<char>, c: Cpu)
    ensures
        leads(x, x, c, c),
{
    let code = Seq::<Ins>::empty();
    assert(with_code(x, code) == x);
}

/// One more line.
pub proof fn lemma_line(from: Seq<char>, to: Seq<char>, c: Cpu, d: Cpu, i: Ins) -> (e: Cpu)
    requires
        leads(from, to, c, d),
        after_ins(d, i) is Some,
    ensures
        leads(from, to + ins_text(i), c, e),
        e == after_ins(d, i)->Some_0,
{
    let code = choose|code: Seq<Ins>|
        to == #[trigger] with_code(from, code) && after(c, code) == Some(d);
    let all = code.push(i);
    assert(all.drop_last() =~= code);
    assert(with_code(from, all) == to + ins_text(i));
    after_ins(d, i)->Some_0
}

// ---------------------------------------------------------------------------
// Names
// ---------------------------------------------------------------------------

/// The names of the moves differ.
pub(crate) proof fn lemma_moves()
    ensures
        "mov"@ != "neg"@,
        "mov"@ != "cmp"@,
        "mov"@ != "cset"@,
        "mov"@ != "movn"@,
        "mov"@ != "movt"@,
        "neg"@ != "cmp"@,
        "neg"@ != "cset"@,
        "neg"@ != "movn"@,
        "neg"@ != "movt"@,
        "cmp"@ != "cset"@,
        "cmp"@ != "movn"@,
        "cmp"@ != "movt"@,
        "cset"@ != "movn"@,
        "cset"@ != "movt"@,
        "movn"@ != "movt"@,
{
    reveal_strlit("mov");
    reveal_strlit("neg");
    reveal_strlit("cmp");
    reveal_strlit("cset");
    reveal_strlit("movn");
    reveal_strlit("movt");
    assert("mov"@[0] != "neg"@[0]);
    assert("mov"@[0] != "cmp"@[0]);
    assert("mov"@.len() != "cset"@.len());
    assert("mov"@.len() != "movn"@.len());
    assert("mov"@.len() != "movt"@.len());
    assert("neg"@[0] != "cmp"@[0]);
    assert("neg"@.len() != "cset"@.len());
    assert("neg"@.len() != "movn"@.len());
    assert("neg"@.len() != "movt"@.len());
    assert("cmp"@.len() != "cset"@.len());
    assert("cmp"@.len() != "movn"@.len());
    assert("cmp"@.len() != "movt"@.len());
    assert("cset"@[0] != "movn"@[0]);
    assert("cset"@[0] != "movt"@[0]);
    assert("movn"@[3] != "movt"@[3]);
}

/// The names of the operations differ.
pub(crate) proof fn lemma_operations()
    ensures
        "add"@ != "sub"@,
        "add"@ != "mul"@,
        "add"@ != "sdiv"@,
        "add"@ != "and"@,
        "add"@ != "orr"@,
        "add"@ != "eor"@,
        "add"@ != "lsl"@,
        "add"@ != "asr"@,
        "add"@ != "rsbs"@,
        "sub"@ != "mul"@,
        "sub"@ != "sdiv"@,
        "sub"@ != "and"@,
        "sub"@ != "orr"@,
        "sub"@ != "eor"@,
        "sub"@ != "lsl"@,
        "sub"@ != "asr"@,
        "sub"@ != "rsbs"@,
        "mul"@ != "sdiv"@,
        "mul"@ != "and"@,
        "mul"@ != "orr"@,
        "mul"@ != "eor"@,
        "mul"@ != "lsl"@,
        "mul"@ != "asr"@,
        "mul"@ != "rsbs"@,
        "sdiv"@ != "and"@,
        "sdiv"@ != "orr"@,
        "sdiv"@ != "eor"@,
        "sdiv"@ != "lsl"@,
        "sdiv"@ != "asr"@,
        "sdiv"@ != "rsbs"@,
        "and"@ != "orr"@,
        "and"@ != "eor"@,
        "and"@ != "lsl"@,
        "and"@ != "asr"@,
        "and"@ != "rsbs"@,
        "orr"@ != "eor"@,
        "orr"@ != "lsl"@,
        "orr"@ != "asr"@,
        "orr"@ != "rsbs"@,
        "eor"@ != "lsl"@,
        "eor"@ != "asr"@,
        "eor"@ != "rsbs"@,
        "lsl"@ != "asr"@,
        "lsl"@ != "rsbs"@,
        "asr"@ != "rsbs"@,
{
    reveal_strlit("add");
    reveal_strlit("sub");
    reveal_strlit("mul");
    reveal_strlit("sdiv");
    reveal_strlit("and");
    reveal_strlit("orr");
    reveal_strlit("eor");
    reveal_strlit("lsl");
    reveal_strlit("asr");
    reveal_strlit("rsbs");
    assert("add"@[0] != "sub"@[0]);
    assert("add"@[0] != "mul"@[0]);
    assert("add"@.len() != "sdiv"@.len());
    assert("add"@[1] != "and"@[1]);
    assert("add"@[0] != "orr"@[0]);
    assert("add"@[0] != "eor"@[0]);
    assert("add"@[0] != "lsl"@[0]);
    assert("add"@[1] != "asr"@[1]);
    assert("add"@.len() != "rsbs"@.len());
    assert("sub"@[0] != "mul"@[0]);
    assert("sub"@.len() != "sdiv"@.len());
    assert("sub"@[0] != "and"@[0]);
    assert("sub"@[0] != "orr"@[0]);
    assert("sub"@[0] != "eor"@[0]);
    assert("sub"@[0] != "lsl"@[0]);
    assert("sub"@[0] != "asr"@[0]);
    assert("sub"@.len() != "rsbs"@.len());
    assert("mul"@.len() != "sdiv"@.len());
    assert("mul"@[0] != "and"@[0]);
    assert("mul"@[0] != "orr"@[0]);
    assert("mul"@[0] != "eor"@[0]);
    assert("mul"@[0] != "lsl"@[0]);
    assert("mul"@[0] != "asr"@[0]);
    assert("mul"@.len() != "rsbs"@.len());
    assert("sdiv"@.len() != "and"@.len());
    assert("sdiv"@.len() != "orr"@.len());
    assert("sdiv"@.len() != "eor"@.len());
    assert("sdiv"@.len() != "lsl"@.len());
    assert("sdiv"@.len() != "asr"@.len());
    assert("sdiv"@[0] != "rsbs"@[0]);
    assert("and"@[0] != "orr"@[0]);
    assert("and"@[0] != "eor"@[0]);
    assert("and"@[0] != "lsl"@[0]);
    assert("and"@[1] != "asr"@[1]);
    assert("and"@.len() != "rsbs"@.len());
    assert("orr"@[0] != "eor"@[0]);
    assert("orr"@[0] != "lsl"@[0]);
    assert("orr"@[0] != "asr"@[0]);
    assert("orr"@.len() != "rsbs"@.len());
    assert("eor"@[0] != "lsl"@[0]);
    assert("eor"@[0] != "asr"@[0]);
    assert("eor"@.len() != "rsbs"@.len());
    assert("lsl"@[0] != "asr"@[0]);
    assert("lsl"@.len() != "rsbs"@.len());
    assert("asr"@.len() != "rsbs"@.len());
}

/// The names of the conditions differ.
proof fn lemma_conditions()
    ensures
        "eq"@ != "ne"@,
        "eq"@ != "lt"@,
        "eq"@ != "gt"@,
        "eq"@ != "le"@,
        "eq"@ != "ge"@,
        "ne"@ != "lt"@,
        "ne"@ != "gt"@,
        "ne"@ != "le"@,
        "ne"@ != "ge"@,
        "lt"@ != "gt"@,
        "lt"@ != "le"@,
        "lt"@ != "ge"@,
        "gt"@ != "le"@,
        "gt"@ != "ge"@,
        "le"@ != "ge"@,
{
    reveal_strlit("eq");
    reveal_strlit("ne");
    reveal_strlit("lt");
    reveal_strlit("gt");
    reveal_strlit("le");
    reveal_strlit("ge");
    assert("eq"@[0] != "ne"@[0]);
    assert("eq"@[0] != "lt"@[0]);
    assert("eq"@[0] != "gt"@[0]);
    assert("eq"@[0] != "le"@[0]);
    assert("eq"@[0] != "ge"@[0]);
    assert("ne"@[0] != "lt"@[0]);
    assert("ne"@[0] != "gt"@[0]);
    assert("ne"@[0] != "le"@[0]);
    assert("ne"@[0] != "ge"@[0]);
    assert("lt"@[0] != "gt"@[0]);
    assert("lt"@[1] != "le"@[1]);
    assert("lt"@[0] != "ge"@[0]);
    assert("gt"@[0] != "le"@[0]);
    assert("gt"@[1] != "ge"@[1]);
    assert("le"@[0] != "ge"@[0]);
}

/// The names of the branches differ.
pub(crate) proof fn lemma_branches()
    ensures
        "b"@ != "beq"@,
        "b"@ != "bne"@,
        "b"@ != "blt"@,
        "b"@ != "bgt"@,
        "b"@ != "ble"@,
        "b"@ != "bge"@,
        "beq"@ != "bne"@,
        "beq"@ != "blt"@,
        "beq"@ != "bgt"@,
        "beq"@ != "ble"@,
        "beq"@ != "bge"@,
        "bne"@ != "blt"@,
        "bne"@ != "bgt"@,
        "bne"@ != "ble"@,
        "bne"@ != "bge"@,
        "blt"@ != "bgt"@,
        "blt"@ != "ble"@,
        "blt"@ != "bge"@,
        "bgt"@ != "ble"@,
        "bgt"@ != "bge"@,
        "ble"@ != "bge"@,
{
    reveal_strlit("b");
    reveal_strlit("beq");
    reveal_strlit("bne");
    reveal_strlit("blt");
    reveal_strlit("bgt");
    reveal_strlit("ble");
    reveal_strlit("bge");
    assert("b"@.len() != "beq"@.len());
    assert("b"@.len() != "bne"@.len());
    assert("b"@.len() != "blt"@.len());
    assert("b"@.len() != "bgt"@.len());
    assert("b"@.len() != "ble"@.len());
    assert("b"@.len() != "bge"@.len());
    assert("beq"@[1] != "bne"@[1]);
    assert("beq"@[1] != "blt"@[1]);
    assert("beq"@[1] != "bgt"@[1]);
    assert("beq"@[1] != "ble"@[1]);
    assert("beq"@[1] != "bge"@[1]);
    assert("bne"@[1] != "blt"@[1]);
    assert("bne"@[1] != "bgt"@[1]);
    assert("bne"@[1] != "ble"@[1]);
    assert("bne"@[1] != "bge"@[1]);
    assert("blt"@[1] != "bgt"@[1]);
    assert("blt"@[2] != "ble"@[2]);
    assert("blt"@[1] != "bge"@[1]);
    assert("bgt"@[1] != "ble"@[1]);
    assert("bgt"@[2] != "bge"@[2]);
    assert("ble"@[1] != "bge"@[1]);
}

/// The names of the registers differ.
proof fn lemma_registers()
    ensures
        "x0"@ != "x9"@,
        "x0"@ != "x10"@,
        "x0"@ != "x11"@,
        "x0"@ != "x29"@,
        "x0"@ != "r0"@,
        "x0"@ != "r12"@,
        "x0"@ != "r3"@,
        "x0"@ != "r2"@,
        "x0"@ != "r11"@,
        "x9"@ != "x10"@,
        "x9"@ != "x11"@,
        "x9"@ != "x29"@,
        "x9"@ != "r0"@,
        "x9"@ != "r12"@,
        "x9"@ != "r3"@,
        "x9"@ != "r2"@,
        "x9"@ != "r11"@,
        "x10"@ != "x11"@,
        "x10"@ != "x29"@,
        "x10"@ != "r0"@,
        "x10"@ != "r12"@,
        "x10"@ != "r3"@,
        "x10"@ != "r2"@,
        "x10"@ != "r11"@,
        "x11"@ != "x29"@,
        "x11"@ != "r0"@,
        "x11"@ != "r12"@,
        "x11"@ != "r3"@,
        "x11"@ != "r2"@,
        "x11"@ != "r11"@,
        "x29"@ != "r0"@,
        "x29"@ != "r12"@,
        "x29"@ != "r3"@,
        "x29"@ != "r2"@,
        "x29"@ != "r11"@,
        "r0"@ != "r12"@,
        "r0"@ != "r3"@,
        "r0"@ != "r2"@,
        "r0"@ != "r11"@,
        "r12"@ != "r3"@,
        "r12"@ != "r2"@,
        "r12"@ != "r11"@,
        "r3"@ != "r2"@,
        "r3"@ != "r11"@,
        "r2"@ != "r11"@,
{
    reveal_strlit("x0");
    reveal_strlit("x9");
    reveal_strlit("x10");
    reveal_strlit("x11");
    reveal_strlit("x29");
    reveal_strlit("r0");
    reveal_strlit("r12");
    reveal_strlit("r3");
    reveal_strlit("r2");
    reveal_strlit("r11");
    assert("x0"@[1] != "x9"@[1]);
    assert("x0"@.len() != "x10"@.len());
    assert("x0"@.len() != "x11"@.len());
    assert("x0"@.len() != "x29"@.len());
    assert("x0"@[0] != "r0"@[0]);
    assert("x0"@.len() != "r12"@.len());
    assert("x0"@[0] != "r3"@[0]);
    assert("x0"@[0] != "r2"@[0]);
    assert("x0"@.len() != "r11"@.len());
    assert("x9"@.len() != "x10"@.len());
    assert("x9"@.len() != "x11"@.len());
    assert("x9"@.len() != "x29"@.len());
    assert("x9"@[0] != "r0"@[0]);
    assert("x9"@.len() != "r12"@.len());
    assert("x9"@[0] != "r3"@[0]);
    assert("x9"@[0] != "r2"@[0]);
    assert("x9"@.len() != "r11"@.len());
    assert("x10"@[2] != "x11"@[2]);
    assert("x10"@[1] != "x29"@[1]);
    assert("x10"@.len() != "r0"@.len());
    assert("x10"@[0] != "r12"@[0]);
    assert("x10"@.len() != "r3"@.len());
    assert("x10"@.len() != "r2"@.len());
    assert("x10"@[0] != "r11"@[0]);
    assert("x11"@[1] != "x29"@[1]);
    assert("x11"@.len() != "r0"@.len());
    assert("x11"@[0] != "r12"@[0]);
    assert("x11"@.len() != "r3"@.len());
    assert("x11"@.len() != "r2"@.len());
    assert("x11"@[0] != "r11"@[0]);
    assert("x29"@.len() != "r0"@.len());
    assert("x29"@[0] != "r12"@[0]);
    assert("x29"@.len() != "r3"@.len());
    assert("x29"@.len() != "r2"@.len());
    assert("x29"@[0] != "r11"@[0]);
    assert("r0"@.len() != "r12"@.len());
    assert("r0"@[1] != "r3"@[1]);
    assert("r0"@[1] != "r2"@[1]);
    assert("r0"@.len() != "r11"@.len());
    assert("r12"@.len() != "r3"@.len());
    assert("r12"@.len() != "r2"@.len());
    assert("r12"@[2] != "r11"@[2]);
    assert("r3"@[1] != "r2"@[1]);
    assert("r3"@.len() != "r11"@.len());
    assert("r2"@.len() != "r11"@.len());
}

/// The registers by their numbers.
pub(crate) proof fn lemma_numbers(a64: bool)
    ensures
        ret(a64) == reg_prefix(a64) + dec(0),
        tmp(a64) == reg_prefix(a64) + dec(if a64 {
            9
        } else {
            12
        }),
        tmp2(a64) == reg_prefix(a64) + dec(if a64 {
            10
        } else {
            3
        }),
        tmp3(a64) == reg_prefix(a64) + dec(if a64 {
            11
        } else {
            2
        }),
        fp(a64) == reg_prefix(a64) + dec(if a64 {
            29
        } else {
            11
        }),
{
    reveal(ret);
    reveal(tmp);
    reveal(tmp2);
    reveal(tmp3);
    reveal(fp);
    reveal(reg_prefix);
    reveal_with_fuel(dec, 3);
    reveal_strlit("x");
    reveal_strlit("r");
    reveal_strlit("x0");
    reveal_strlit("x9");
    reveal_strlit("x10");
    reveal_strlit("x11");
    reveal_strlit("x29");
    reveal_strlit("r0");
    reveal_strlit("r12");
    reveal_strlit("r3");
    reveal_strlit("r2");
    reveal_strlit("r11");
    if a64 {
        assert("x0"@ =~= "x"@ + dec(0));
        assert("x9"@ =~= "x"@ + dec(9));
        assert("x10"@ =~= "x"@ + dec(10));
        assert("x11"@ =~= "x"@ + dec(11));
        assert("x29"@ =~= "x"@ + dec(29));
    } else {
        assert("r0"@ =~= "r"@ + dec(0));
        assert("r12"@ =~= "r"@ + dec(12));
        assert("r3"@ =~= "r"@ + dec(3));
        assert("r2"@ =~= "r"@ + dec(2));
        assert("r11"@ =~= "r"@ + dec(11));
    }
}

/// Registers with different numbers are different.
pub(crate) proof fn lemma_numbered(a64: bool, m: nat, n: nat)
    requires
        m != n,
    ensures
        reg_prefix(a64) + dec(m) != reg_prefix(a64) + dec(n),
{
    lemma_dec_differs(m, n);
    let p = reg_prefix(a64);
    assert((p + dec(m)).skip(p.len() as int) =~= dec(m));
    assert((p + dec(n)).skip(p.len() as int) =~= dec(n));
}

/// The registers of variables differ from each other and from those that
/// operations use.
pub(crate) proof fn lemma_pool(a64: bool)
    ensures
        forall|i: int|
            0 <= i < pool_len(a64) ==> #[trigger] pool_reg(a64, i) != ret(a64) && pool_reg(a64, i)
                != tmp(a64) && pool_reg(a64, i) != tmp2(a64) && pool_reg(a64, i) != tmp3(a64)
                && pool_reg(a64, i) != fp(a64),
        forall|i: int, j: int|
            #![trigger pool_reg(a64, i), pool_reg(a64, j)]
            0 <= i < j < pool_len(a64) ==> pool_reg(a64, i) != pool_reg(a64, j),
        ret(a64) != tmp(a64),
        ret(a64) != tmp2(a64),
        ret(a64) != tmp3(a64),
        tmp(a64) != tmp2(a64),
        tmp(a64) != tmp3(a64),
        tmp2(a64) != tmp3(a64),
        ret(a64) != fp(a64),
        tmp(a64) != fp(a64),
        tmp2(a64) != fp(a64),
        tmp3(a64) != fp(a64),
{
    reveal(pool_reg);
    reveal(ret);
    reveal(tmp);
    reveal(tmp2);
    reveal(tmp3);
    reveal(fp);
    lemma_registers();
    lemma_numbers(a64);
    let base = if a64 {
        19int
    } else {
        4
    };
    assert forall|i: int|
        0 <= i < pool_len(a64) implies #[trigger] pool_reg(a64, i) != ret(a64) && pool_reg(a64, i)
        != tmp(a64) && pool_reg(a64, i) != tmp2(a64) && pool_reg(a64, i) != tmp3(a64) && pool_reg(
        a64,
        i,
    ) != fp(a64) by {
        let n = (i + base) as nat;
        lemma_numbered(a64, n, 0);
        if a64 {
            lemma_numbered(a64, n, 9);
            lemma_numbered(a64, n, 10);
            lemma_numbered(a64, n, 11);
            lemma_numbered(a64, n, 29);
        } else {
            lemma_numbered(a64, n, 12);
            lemma_numbered(a64, n, 3);
            lemma_numbered(a64, n, 2);
            lemma_numbered(a64, n, 11);
        }
    }
    assert forall|i: int, j: int|
        #![trigger pool_reg(a64, i), pool_reg(a64, j)]
        0 <= i < j < pool_len(a64) implies pool_reg(a64, i) != pool_reg(a64, j) by {
        lemma_numbered(a64, (i + base) as nat, (j + base) as nat);
    }
}

// ---------------------------------------------------------------------------
// What expressions mean
// ---------------------------------------------------------------------------

/// The value of an expression of integers, truth values and variables in words of
/// `bits` bits; none for other expressions, and where an operation in it has no
/// value.
pub open spec fn meaning(e: Expr, vals: Map<Seq<char>, int>, bits: nat) -> Option<int>
    decreases e,
{
    match e {
        Expr::Integer(i) => if constant_fits(i.value, bits) {
            Some(i.value as int)
        } else {
            None
        },
        Expr::Bool(b) => Some(truth(b.value)),
        Expr::Identifier(id) => if vals.contains_key(id.name@) {
            Some(vals[id.name@])
        } else {
            None
        },
        Expr::Unary(u) => match meaning(*u.operand, vals, bits) {
            Some(v) => match u.operator {
                UnaryOp::Neg => Some(wrapped(-v, bits)),
                UnaryOp::Not | UnaryOp::Bang => if v == 0 || v == 1 {
                    Some(1 - v)
                } else {
                    None
                },
                _ => None,
            },
            None => None,
        },
        Expr::Binary(b) => match (meaning(*b.left, vals, bits), meaning(*b.right, vals, bits)) {
            (Some(l), Some(r)) => value(b.operator, l, r, bits),
            _ => None,
        },
        Expr::Cast(c) => meaning(*c.expr, vals, bits),
        _ => None,
    }
}

/// The constants that expressions are given a meaning for: those of a word that
/// are not negative, and in 64 bits the small negative ones.
pub open spec fn constant_fits(v: i64, bits: nat) -> bool {
    if bits == 64 {
        v >= -65536
    } else {
        0 <= v < 0x8000_0000
    }
}

/// What a location holds.
pub open spec fn held(c: Cpu, l: VarLoc) -> Option<int> {
    match l {
        VarLoc::Reg(i) => if i < pool_len(c.a64) && c.regs.contains_key(pool_reg(c.a64, i as int)) {
            Some(c.regs[pool_reg(c.a64, i as int)])
        } else {
            None
        },
        VarLoc::Stack(o) => if c.slots.contains_key(o as int) {
            Some(c.slots[o as int])
        } else {
            None
        },
    }
}

/// Every variable with a value has a location that holds it.
pub open spec fn holds(c: Cpu, vars: Map<Seq<char>, VarLoc>, vals: Map<Seq<char>, int>) -> bool {
    forall|n: Seq<char>| #[trigger]
        vals.contains_key(n) ==> vars.contains_key(n) && held(c, vars[n]) == Some(vals[n])
}

/// The registers of variables, the slots and the stack are the same.
pub open spec fn same_store(c: Cpu, d: Cpu) -> bool {
    &&& c.a64 == d.a64
    &&& forall|i: int|
        0 <= i < pool_len(c.a64) ==> same_register(c, d, #[trigger] pool_reg(c.a64, i))
    &&& c.slots == d.slots
    &&& c.stack == d.stack
}

/// A register holds the same in both states.
pub open spec fn same_register(c: Cpu, d: Cpu, r: Seq<char>) -> bool {
    &&& c.regs.contains_key(r) == d.regs.contains_key(r)
    &&& c.regs.contains_key(r) ==> c.regs[r] == d.regs[r]
}

/// The register holds no variable, and is not the frame pointer.
pub open spec fn free_register(a64: bool, r: Seq<char>) -> bool {
    &&& forall|i: int| 0 <= i < pool_len(a64) ==> r != #[trigger] pool_reg(a64, i)
    &&& r != fp(a64)
}

/// A value in a free register leaves the variables alone.
pub(crate) proof fn lemma_set(c: Cpu, r: Seq<char>, v: int)
    requires
        free_register(c.a64, r),
    ensures
        same_store(c, c.set(r, v)),
{
}

/// Variables that are left alone hold what they held.
pub(crate) proof fn lemma_holds(c: Cpu, d: Cpu, vars: Map<Seq<char>, VarLoc>, vals: Map<Seq<char>, int>)
    requires
        same_store(c, d),
        holds(c, vars, vals),
    ensures
        holds(d, vars, vals),
{
    assert forall|n: Seq<char>| #[trigger] vals.contains_key(n) implies vars.contains_key(n)
        && held(d, vars[n]) == Some(vals[n]) by {
        match vars[n] {
            VarLoc::Reg(i) => {
                assert(same_register(c, d, pool_reg(c.a64, i as int)));
            },
            VarLoc::Stack(_) => {},
        }
    }
}

/// What leaves the variables alone twice leaves them alone.
pub(crate) proof fn lemma_chain(c: Cpu, d: Cpu, e: Cpu)
    requires
        same_store(c, d),
        same_store(d, e),
    ensures
        same_store(c, e),
{
    assert forall|i: int| 0 <= i < pool_len(c.a64) implies same_register(
        c,
        e,
        #[trigger] pool_reg(c.a64, i),
    ) by {
        assert(same_register(c, d, pool_reg(c.a64, i)));
        assert(same_register(d, e, pool_reg(c.a64, i)));
    }
}

/// The registers that operations use are free.
pub(crate) proof fn lemma_free(a64: bool)
    ensures
        free_register(a64, ret(a64)),
        free_register(a64, tmp(a64)),
        free_register(a64, tmp2(a64)),
        free_register(a64, tmp3(a64)),
{
    lemma_pool(a64);
}

/// An expression with a meaning is simple.
pub(crate) proof fn lemma_simple(e: Expr, vals: Map<Seq<char>, int>, bits: nat)
    requires
        meaning(e, vals, bits) is Some,
    ensures
        simple(e),
    decreases e,
{
    match e {
        Expr::Unary(u) => {
            lemma_simple(*u.operand, vals, bits);
        },
        Expr::Binary(b) => {
            lemma_simple(*b.left, vals, bits);
            lemma_simple(*b.right, vals, bits);
        },
        Expr::Cast(k) => {
            lemma_simple(*k.expr, vals, bits);
        },
        _ => {},
    }
}

// ---------------------------------------------------------------------------
// Expressions
// ---------------------------------------------------------------------------

/// The value is in the register, and the variables are left alone.
pub open spec fn gives(c: Cpu, d: Cpu, r: Seq<char>, v: int) -> bool {
    &&& same_store(c, d)
    &&& d.regs.contains_key(r)
    &&& d.regs[r] == v
    &&& d.at is None
}

/// The pieces of a positive number.
proof fn lemma_pieces(u: u64)
    ensures
        u & 0xffff == u % 65536,
        (u >> 16) & 0xffff == (u / 0x1_0000) % 65536,
        (u >> 32) & 0xffff == (u / 0x1_0000_0000) % 65536,
        (u >> 48) & 0xffff == (u / 0x1_0000_0000_0000) % 65536,
{
    assert(u & 0xffff == u % 65536) by (bit_vector);
    assert((u >> 16) & 0xffff == (u / 0x1_0000) % 65536) by (bit_vector);
    assert((u >> 32) & 0xffff == (u / 0x1_0000_0000) % 65536) by (bit_vector);
    assert((u >> 48) & 0xffff == (u / 0x1_0000_0000_0000) % 65536) by (bit_vector);
}

/// A piece in front of a smaller number.
proof fn lemma_replaced(x: int, p: int, v: int)
    requires
        0 <= x < p,
        0 <= v < 65536,
        p == 0x1_0000 || p == 0x1_0000_0000 || p == 0x1_0000_0000_0000,
        x + v * p < 0x8000_0000_0000_0000,
    ensures
        replaced(x, p, v, 64) == x + v * p,
{
    lemma_ranges();
    assert(x / p == 0) by (nonlinear_arith)
        requires
            0 <= x < p,
    ;
    assert(((x / p) % 65536) * p == 0) by (nonlinear_arith)
        requires
            x / p == 0,
    ;
    let y = x + v * p;
    let r = 0x1_0000_0000_0000_0000int;
    let h = 0x8000_0000_0000_0000int;
    assert(0 <= y) by (nonlinear_arith)
        requires
            y == x + v * p,
            x >= 0,
            v >= 0,
            p >= 0,
    ;
    assert((y + h) % r == wrapped(y, 64) + h);
}

/// `movk`, where the piece is not zero.
proof fn lemma_piece(from: Seq<char>, out: Seq<char>, reg: Seq<char>, v: u64, s: Seq<char>, p: int, c0: Cpu, c: Cpu) -> (d: Cpu)
    requires
        leads(from, out, c0, c),
        place(s) == Some(p),
        v < 65536,
        c.at is None ==> c.a64 && c.regs.contains_key(reg) && 0 <= c.regs[reg] < p && c.regs[reg]
            + v * p < 0x8000_0000_0000_0000,
    ensures
        leads(
            from,
            if v != 0 {
                out + movk_line(reg, v, s)
            } else {
                out
            },
            c0,
            d,
        ),
        c.at is Some ==> d == c,
        c.at is None ==> d == c.set(reg, c.regs[reg] + v * p) || (v == 0 && d == c),
{
    reveal(movk_line);
    if v != 0 {
        let d = lemma_line(from, out, c0, c, Ins::Keep(reg, v as nat, s));
        if c.at is None {
            lemma_replaced(c.regs[reg], p, v as int);
        }
        d
    } else {
        c
    }
}

/// The places of pieces.
proof fn lemma_places()
    ensures
        place("16"@) == Some(0x1_0000int),
        place("32"@) == Some(0x1_0000_0000int),
        place("48"@) == Some(0x1_0000_0000_0000int),
{
    reveal_strlit("16");
    reveal_strlit("32");
    reveal_strlit("48");
    assert("16"@[0] != "32"@[0] && "16"@[0] != "48"@[0] && "32"@[0] != "48"@[0]);
}

/// A constant of more than sixteen bits.
proof fn lemma_large(from: Seq<char>, out: Seq<char>, reg: Seq<char>, v: i64, c0: Cpu, c: Cpu) -> (d: Cpu)
    requires
        leads(from, out, c0, c),
        c.at is None ==> c.a64 && v > 65535,
        v > 65535 || v < -65536,
    ensures
        leads(from, load_imm(out, true, reg, v), c0, d),
        c.at is Some ==> d == c,
        c.at is None ==> d.regs.contains_key(reg) && d.regs[reg] == v && d == c.set(reg, v as int),
{
    reveal(load_imm);
    reveal(ins1i);
    lemma_moves();
    lemma_places();
    let u = v as u64;
    lemma_pieces(u);
    let (k0, k1, k2, k3) = (u & 0xffff, (u >> 16) & 0xffff, (u >> 32) & 0xffff, (u >> 48) & 0xffff);
    let i0 = Ins::Imm("mov"@, reg, k0 as int);
    let d0 = lemma_line(from, out, c0, c, i0);
    let o0 = out + ins_text(i0);
    if c.at is None {
        assert(u == v);
        lemma_sums(u as int);
    }
    let d1 = lemma_piece(from, o0, reg, k1, "16"@, 0x1_0000, c0, d0);
    let o1 = if k1 != 0 {
        o0 + movk_line(reg, k1, "16"@)
    } else {
        o0
    };
    let d2 = lemma_piece(from, o1, reg, k2, "32"@, 0x1_0000_0000, c0, d1);
    let o2 = if k2 != 0 {
        o1 + movk_line(reg, k2, "32"@)
    } else {
        o1
    };
    let d3 = lemma_piece(from, o2, reg, k3, "48"@, 0x1_0000_0000_0000, c0, d2);
    if c.at is None {
        assert(d3.regs =~= c.regs.insert(reg, v as int));
    }
    d3
}

/// A number is the sum of its pieces.
proof fn lemma_sums(u: int)
    requires
        0 <= u < 0x8000_0000_0000_0000,
    ensures
        ({
            let k0 = u % 65536;
            let k1 = (u / 0x1_0000) % 65536;
            let k2 = (u / 0x1_0000_0000) % 65536;
            let k3 = (u / 0x1_0000_0000_0000) % 65536;
            &&& u == k0 + k1 * 0x1_0000 + k2 * 0x1_0000_0000 + k3 * 0x1_0000_0000_0000
            &&& k0 + k1 * 0x1_0000 < 0x1_0000_0000
            &&& k0 + k1 * 0x1_0000 + k2 * 0x1_0000_0000 < 0x1_0000_0000_0000
        }),
{
    let a = u / 0x1_0000;
    let b = a / 0x1_0000;
    let c = b / 0x1_0000;
    vstd::arithmetic::div_mod::lemma_div_denominator(u, 0x1_0000, 0x1_0000);
    vstd::arithmetic::div_mod::lemma_div_denominator(u, 0x1_0000_0000, 0x1_0000);
    assert(u == a * 65536 + u % 65536);
    assert(a == b * 65536 + a % 65536);
    assert(b == c * 65536 + b % 65536);
    assert(c < 65536);
}

/// A constant is loaded.
pub(crate) proof fn lemma_load_imm(from: Seq<char>, out: Seq<char>, a64: bool, reg: Seq<char>, v: i64, c0: Cpu, c: Cpu) -> (d: Cpu)
    requires
        leads(from, out, c0, c),
        c.at is None ==> c.a64 == a64 && constant_fits(v, width(a64)),
        free_register(a64, reg),
    ensures
        leads(from, load_imm(out, a64, reg, v), c0, d),
        c.at is Some ==> d == c,
        c.at is None ==> d == c.set(reg, v as int) && gives(c, d, reg, v as int),
{
    reveal(load_imm);
    reveal(ins1i);
    lemma_moves();
    if c.at is None {
        lemma_set(c, reg, v as int);
    }
    if a64 {
        if 0 <= v <= 65535 {
            lemma_line(from, out, c0, c, Ins::Imm("mov"@, reg, v as int))
        } else if -65536 <= v < 0 {
            assert((!v & 0xffff) == -1 - v) by (bit_vector)
                requires
                    -65536 <= v < 0,
            ;
            lemma_line(from, out, c0, c, Ins::Imm("movn"@, reg, (!v & 0xffff) as int))
        } else {
            lemma_large(from, out, reg, v, c0, c)
        }
    } else {
        let u = v as u32;
        assert(u & 0xffff == u % 65536) by (bit_vector);
        assert((u >> 16) & 0xffff == u / 65536) by (bit_vector);
        let lo = u & 0xffff;
        let hi = (u >> 16) & 0xffff;
        let i0 = Ins::Imm("mov"@, reg, lo as int);
        let d0 = lemma_line(from, out, c0, c, i0);
        if hi != 0 {
            let d1 = lemma_line(from, out + ins_text(i0), c0, d0, Ins::Imm("movt"@, reg, hi as int));
            if c.at is None {
                assert(u == v);
                assert(lo + hi * 65536 == v);
                assert(0 <= lo < 65536);
                lemma_ranges();
                assert((lo as int / 65536) % 65536 == 0);
                assert(((v as int) + 0x8000_0000) % 0x1_0000_0000 == wrapped(v as int, 32)
                    + 0x8000_0000);
                assert(d1.regs =~= c.regs.insert(reg, v as int));
            }
            d1
        } else {
            d0
        }
    }
}

/// The texts of sums.
proof fn lemma_add_imm(from: Seq<char>, out: Seq<char>, a64: bool, target: Seq<char>, v: i64, minus: bool, c0: Cpu, c: Cpu) -> (d: Cpu)
    requires
        leads(from, out, c0, c),
        c.at is None ==> c.a64 == a64 && constant_fits(v, width(a64)) && c.regs.contains_key(
            ret(a64),
        ),
        free_register(a64, target),
    ensures
        leads(
            from,
            if minus {
                sub_imm(out, a64, target, ret(a64), v)
            } else {
                add_imm(out, a64, target, ret(a64), v)
            },
            c0,
            d,
        ),
        c.at is Some ==> d == c,
        c.at is None ==> gives(
            c,
            d,
            target,
            wrapped(
                if minus {
                    c.regs[ret(a64)] - v
                } else {
                    c.regs[ret(a64)] + v
                },
                width(a64),
            ),
        ),
{
    reveal(add_imm);
    reveal(sub_imm);
    reveal(ins2i);
    reveal(ins3);
    lemma_operations();
    lemma_free(a64);
    lemma_pool(a64);
    let r = ret(a64);
    let x = wrapped(
        if minus {
            c.regs[r] - v
        } else {
            c.regs[r] + v
        },
        width(a64),
    );
    if c.at is None {
        lemma_set(c, target, x);
    }
    if 0 <= v <= 4095 {
        if minus {
            lemma_line(from, out, c0, c, Ins::TwoImm("sub"@, target, r, v as int))
        } else {
            lemma_line(from, out, c0, c, Ins::TwoImm("add"@, target, r, v as int))
        }
    } else if -4095 <= v < 0 {
        if minus {
            lemma_line(from, out, c0, c, Ins::TwoImm("add"@, target, r, -v))
        } else {
            lemma_line(from, out, c0, c, Ins::TwoImm("sub"@, target, r, -v))
        }
    } else {
        let d1 = lemma_load_imm(from, out, a64, tmp(a64), v, c0, c);
        let o = load_imm(out, a64, tmp(a64), v);
        let m = if minus {
            "sub"@
        } else {
            "add"@
        };
        let d2 = lemma_line(from, o, c0, d1, Ins::Three(m, target, r, tmp(a64)));
        if c.at is None {
            lemma_set(d1, target, x);
            lemma_chain(c, d1, d2);
        }
        d2
    }
}

/// A truth value behind a comparison.
proof fn lemma_cset(from: Seq<char>, out: Seq<char>, a64: bool, target: Seq<char>, op: BinaryOp, c0: Cpu, c: Cpu) -> (d: Cpu)
    requires
        leads(from, out, c0, c),
        c.at is None ==> c.a64 == a64,
        cond_of(op) is Some,
        free_register(a64, target),
    ensures
        leads(from, cset(out, a64, target, cond_of(op)->Some_0), c0, d),
        compares(op, c.compared.0, c.compared.1) is Some,
        c.at is Some ==> d == c,
        c.at is None ==> gives(
            c,
            d,
            target,
            truth(compares(op, c.compared.0, c.compared.1)->Some_0),
        ),
{
    reveal(cset);
    reveal(cond_of);
    reveal(inverse);
    reveal(ins2);
    lemma_conditions();
    lemma_moves();
    let k = cond_of(op)->Some_0;
    let b = compares(op, c.compared.0, c.compared.1)->Some_0;
    if c.at is None {
        lemma_set(c, target, truth(b));
    }
    if a64 {
        lemma_line(from, out, c0, c, Ins::Two("cset"@, target, k))
    } else {
        let i = Ins::MoveIf(k, target, true);
        let j = Ins::MoveIf(inverse(k), target, false);
        let d1 = lemma_line(from, out, c0, c, i);
        let d2 = lemma_line(from, out + ins_text(i), c0, d1, j);
        lemma_move_text(out, k, target);
        d2
    }
}

/// The text of two conditional moves.
proof fn lemma_move_text(out: Seq<char>, k: Seq<char>, target: Seq<char>)
    ensures
        out + "    mov"@ + k + " "@ + target + ", #1\n"@ + "    mov"@ + inverse(k) + " "@ + target
            + ", #0\n"@ == out + ins_text(Ins::MoveIf(k, target, true)) + ins_text(
            Ins::MoveIf(inverse(k), target, false),
        ),
{
    let a = ins_text(Ins::MoveIf(k, target, true));
    let b = ins_text(Ins::MoveIf(inverse(k), target, false));
    assert(out + "    mov"@ + k + " "@ + target + ", #1\n"@ =~= out + a);
    assert(out + a + "    mov"@ + inverse(k) + " "@ + target + ", #0\n"@ =~= out + a + b);
}

/// A comparison with a constant.
proof fn lemma_set_compare(from: Seq<char>, out: Seq<char>, a64: bool, target: Seq<char>, op: BinaryOp, v: i64, c0: Cpu, c: Cpu) -> (d: Cpu)
    requires
        leads(from, out, c0, c),
        c.at is None ==> c.a64 == a64 && constant_fits(v, width(a64)) && c.regs.contains_key(
            ret(a64),
        ),
        cond_of(op) is Some,
        free_register(a64, target),
    ensures
        leads(from, set_compare(out, a64, target, ret(a64), v, cond_of(op)->Some_0), c0, d),
        c.at is Some ==> d == c,
        c.at is None ==> compares(op, c.regs[ret(a64)], v as int) is Some && gives(
            c,
            d,
            target,
            truth(compares(op, c.regs[ret(a64)], v as int)->Some_0),
        ),
{
    reveal(set_compare);
    reveal(ins1i);
    reveal(ins2);
    lemma_moves();
    lemma_free(a64);
    lemma_pool(a64);
    let r = ret(a64);
    if -2048 <= v <= 2047 {
        let i = Ins::Imm("cmp"@, r, v as int);
        let d1 = lemma_line(from, out, c0, c, i);
        lemma_cset(from, out + ins_text(i), a64, target, op, c0, d1)
    } else {
        let d1 = lemma_load_imm(from, out, a64, tmp(a64), v, c0, c);
        let o = load_imm(out, a64, tmp(a64), v);
        let i = Ins::Two("cmp"@, r, tmp(a64));
        let d2 = lemma_line(from, o, c0, d1, i);
        let d3 = lemma_cset(from, o + ins_text(i), a64, target, op, c0, d2);
        if c.at is None {
            lemma_chain(c, d1, d2);
            lemma_chain(c, d2, d3);
        }
        d3
    }
}

/// A remainder by the quotient.
proof fn lemma_rest(l: int, r: int, bits: nat)
    requires
        r != 0,
        bits == 64 || bits == 32,
        fits(l, bits),
        fits(r, bits),
    ensures
        wrapped(l - truncated(l, r) * r, bits) == left_behind(l, r),
        wrapped(l - r * truncated(l, r), bits) == left_behind(l, r),
{
    lemma_ranges();
    let x = magnitude(l);
    let d = magnitude(r);
    let q = x / d;
    assert(q * d <= x && x - q * d < d && q >= 0) by (nonlinear_arith)
        requires
            q == x / d,
            x >= 0,
            d > 0,
    ;
    let t = truncated(l, r);
    assert(t * r == (if l < 0 {
        -(q * d)
    } else {
        q * d
    })) by (nonlinear_arith)
        requires
            t == (if (l < 0) == (r < 0) {
                q
            } else {
                -q
            }),
            d == (if r < 0 {
                -r
            } else {
                r
            }),
    ;
    assert(r * t == t * r) by (nonlinear_arith);
    let y = l - t * r;
    let h = if bits == 64 {
        0x8000_0000_0000_0000int
    } else {
        0x8000_0000int
    };
    assert(-h <= y < h);
    assert((y + h) % (2 * h) == y + h) by {
        if bits == 64 {
            assert((y + 0x8000_0000_0000_0000) % 0x1_0000_0000_0000_0000 == y + 0x8000_0000_0000_0000);
        } else {
            assert((y + 0x8000_0000) % 0x1_0000_0000 == y + 0x8000_0000);
        }
    }
}

/// An operation of the return register with a constant.
#[verifier::rlimit(40)]
proof fn lemma_imm_op(from: Seq<char>, out: Seq<char>, a64: bool, op: BinaryOp, target: Seq<char>, v: i64, c0: Cpu, c: Cpu) -> (d: Cpu)
    requires
        leads(from, out, c0, c),
        free_register(a64, target),
        c.at is None ==> c.a64 == a64 && constant_fits(v, width(a64)) && c.regs.contains_key(
            ret(a64),
        ) && fits(c.regs[ret(a64)], width(a64)) && value(
            op,
            c.regs[ret(a64)],
            v as int,
            width(a64),
        ) is Some,
    ensures
        leads(from, imm_op(out, a64, op, target, v), c0, d),
        c.at is Some ==> d == c,
        c.at is None ==> gives(
            c,
            d,
            target,
            value(op, c.regs[ret(a64)], v as int, width(a64))->Some_0,
        ),
{
    reveal(imm_op);
    lemma_operations();
    lemma_free(a64);
    lemma_pool(a64);
    let r = ret(a64);
    let x = value(op, c.regs[r], v as int, width(a64))->Some_0;
    if c.at is None {
        lemma_set(c, target, x);
        lemma_constant(v, a64);
    }
    match op {
        BinaryOp::Add => lemma_add_imm(from, out, a64, target, v, false, c0, c),
        BinaryOp::Sub => lemma_add_imm(from, out, a64, target, v, true, c0, c),
        BinaryOp::Mod => {
            reveal(ins3);
            reveal(ins4);
            let d1 = lemma_load_imm(from, out, a64, tmp(a64), v, c0, c);
            let o = load_imm(out, a64, tmp(a64), v);
            let i = Ins::Three("sdiv"@, tmp2(a64), r, tmp(a64));
            let d2 = lemma_line(from, o, c0, d1, i);
            let j = if a64 {
                Ins::Four("msub"@, target, tmp2(a64), tmp(a64), r)
            } else {
                Ins::Four("mls"@, target, tmp(a64), tmp2(a64), r)
            };
            let d3 = lemma_line(from, o + ins_text(i), c0, d2, j);
            if c.at is None {
                lemma_set(d1, tmp2(a64), d2.regs[tmp2(a64)]);
                lemma_rest(c.regs[r], v as int, width(a64));
                lemma_set(d2, target, x);
                lemma_chain(c, d1, d2);
                lemma_chain(c, d2, d3);
            }
            d3
        },
        BinaryOp::Shl | BinaryOp::Shr => {
            reveal(ins2i);
            if c.at is None {
                assert(v & 63 == v) by (bit_vector)
                    requires
                        0 <= v < 64,
                ;
            }
            if op == BinaryOp::Shl {
                lemma_line(from, out, c0, c, Ins::TwoImm("lsl"@, target, r, (v & 63) as int))
            } else {
                lemma_line(from, out, c0, c, Ins::TwoImm("asr"@, target, r, (v & 63) as int))
            }
        },
        _ => {
            reveal(cond_of);
            reveal(reg_op);
            reveal(ins3);
            match cond_of(op) {
                Some(k) => lemma_set_compare(from, out, a64, target, op, v, c0, c),
                None => match reg_op(op) {
                    Some(m) => {
                        let d1 = lemma_load_imm(from, out, a64, tmp(a64), v, c0, c);
                        let o = load_imm(out, a64, tmp(a64), v);
                        let d2 = lemma_line(from, o, c0, d1, Ins::Three(m, target, r, tmp(a64)));
                        if c.at is None {
                            lemma_set(d1, target, x);
                            lemma_chain(c, d1, d2);
                        }
                        d2
                    },
                    None => lemma_load_imm(from, out, a64, target, 0, c0, c),
                },
            }
        },
    }
}

/// The constants that are loaded fit in a word.
proof fn lemma_constant(v: i64, a64: bool)
    requires
        constant_fits(v, width(a64)),
    ensures
        fits(v as int, width(a64)),
{
    lemma_ranges();
}

/// An operation of the second scratch register with the first.
#[verifier::rlimit(40)]
proof fn lemma_general_op(from: Seq<char>, out: Seq<char>, a64: bool, op: BinaryOp, target: Seq<char>, c0: Cpu, c: Cpu) -> (d: Cpu)
    requires
        leads(from, out, c0, c),
        free_register(a64, target),
        target != tmp2(a64),
        c.at is None ==> c.a64 == a64 && c.regs.contains_key(tmp(a64)) && c.regs.contains_key(
            tmp2(a64),
        ) && fits(c.regs[tmp(a64)], width(a64)) && fits(c.regs[tmp2(a64)], width(a64)) && value(
            op,
            c.regs[tmp2(a64)],
            c.regs[tmp(a64)],
            width(a64),
        ) is Some,
    ensures
        leads(from, general_op(out, a64, op, target), c0, d),
        c.at is Some ==> d == c,
        c.at is None ==> gives(
            c,
            d,
            target,
            value(op, c.regs[tmp2(a64)], c.regs[tmp(a64)], width(a64))->Some_0,
        ),
{
    reveal(general_op);
    lemma_operations();
    lemma_moves();
    lemma_free(a64);
    lemma_pool(a64);
    let (l, r) = (tmp2(a64), tmp(a64));
    let x = value(op, c.regs[l], c.regs[r], width(a64))->Some_0;
    if c.at is None {
        lemma_set(c, target, x);
    }
    match op {
        BinaryOp::Mod => {
            reveal(ins3);
            reveal(ins4);
            let q = if target == r {
                tmp3(a64)
            } else {
                target
            };
            let i = Ins::Three("sdiv"@, q, l, r);
            let d1 = lemma_line(from, out, c0, c, i);
            let j = if a64 {
                Ins::Four("msub"@, target, q, r, l)
            } else {
                Ins::Four("mls"@, target, r, q, l)
            };
            if c.at is None {
                lemma_set(c, q, d1.regs[q]);
                lemma_rest(c.regs[l], c.regs[r], width(a64));
                lemma_set(d1, target, x);
                lemma_kept(c, d1, target, q, l, r);
            }
            let d2 = lemma_line(from, out + ins_text(i), c0, d1, j);
            if c.at is None {
                lemma_chain(c, d1, d2);
            }
            d2
        },
        BinaryOp::Shl | BinaryOp::Shr => {
            reveal(ins3);
            let m = if op == BinaryOp::Shl {
                "lsl"@
            } else {
                "asr"@
            };
            reveal_strlit("lsl ");
            reveal_strlit("asr ");
            reveal_strlit("lsl");
            reveal_strlit("asr");
            reveal_strlit(" ");
            assert("lsl "@ =~= "lsl"@ + " "@);
            assert("asr "@ =~= "asr"@ + " "@);
            if a64 {
                lemma_line(from, out, c0, c, Ins::Three(m, target, l, r))
            } else {
                lemma_line(from, out, c0, c, Ins::Shift(m, target, l, r))
            }
        },
        _ => {
            reveal(cond_of);
            reveal(reg_op);
            reveal(ins3);
            reveal(ins2);
            reveal(ins1i);
            match cond_of(op) {
                Some(k) => {
                    let i = Ins::Two("cmp"@, l, r);
                    let d1 = lemma_line(from, out, c0, c, i);
                    lemma_cset(from, out + ins_text(i), a64, target, op, c0, d1)
                },
                None => match reg_op(op) {
                    Some(m) => lemma_line(from, out, c0, c, Ins::Three(m, target, l, r)),
                    None => lemma_line(from, out, c0, c, Ins::Imm("mov"@, target, 0)),
                },
            }
        },
    }
}

/// A quotient in a register of its own leaves the operands where they are needed.
proof fn lemma_kept(c: Cpu, d: Cpu, target: Seq<char>, q: Seq<char>, l: Seq<char>, r: Seq<char>)
    requires
        d == c.set(q, d.regs[q]),
        q != r,
        c.regs.contains_key(l),
        c.regs.contains_key(r),
    ensures
        d.regs[r] == c.regs[r],
        q != l ==> d.regs[l] == c.regs[l],
{
}

/// A variable is loaded.
pub(crate) proof fn lemma_load_var(from: Seq<char>, out: Seq<char>, a64: bool, l: VarLoc, target: Seq<char>, c0: Cpu, c: Cpu) -> (d: Cpu)
    requires
        leads(from, out, c0, c),
        c.at is None ==> c.a64 == a64 && held(c, l) is Some,
        free_register(a64, target),
    ensures
        leads(from, load_var_unless(out, a64, l, target), c0, d),
        c.at is None ==> gives(c, d, target, held(c, l)->Some_0) && d == c.set(
            target,
            held(c, l)->Some_0,
        ),
        c.at is Some ==> d == c,
{
    reveal(load_var_unless);
    reveal(load_var);
    reveal(mem_line);
    reveal(ins2);
    lemma_moves();
    if c.at is None {
        lemma_set(c, target, held(c, l)->Some_0);
    }
    match l {
        VarLoc::Reg(i) => {
            if pool_reg(a64, i as int) == target {
                c
            } else {
                lemma_line(from, out, c0, c, Ins::Two("mov"@, target, pool_reg(a64, i as int)))
            }
        },
        VarLoc::Stack(o) => {
            lemma_line(from, out, c0, c, Ins::Load(target, fp(a64), o as int))
        },
    }
}

/// The values of variables fit in a word.
pub open spec fn words(vals: Map<Seq<char>, int>, bits: nat) -> bool {
    forall|n: Seq<char>| #[trigger] vals.contains_key(n) ==> fits(vals[n], bits)
}

/// A number that is reduced to a word fits in it.
pub(crate) proof fn lemma_wrapped_fits(x: int, bits: nat)
    requires
        bits == 64 || bits == 32,
    ensures
        fits(wrapped(x, bits), bits),
{
    lemma_ranges();
    let h = if bits == 64 {
        0x8000_0000_0000_0000int
    } else {
        0x8000_0000int
    };
    vstd::arithmetic::div_mod::lemma_mod_bound(x + h, 2 * h);
}

/// The bits of two words are a word.
proof fn lemma_bits_fit(l: int, r: int, bits: nat)
    requires
        bits == 64 || bits == 32,
        fits(l, bits),
        fits(r, bits),
    ensures
        fits(both_bits(l, r), bits),
        fits(any_bits(l, r), bits),
        fits(other_bits(l, r), bits),
{
    lemma_ranges();
    if bits == 32 {
        let (a, b) = (l as i64, r as i64);
        assert(-0x8000_0000 <= (a & b) < 0x8000_0000 && -0x8000_0000 <= (a | b) < 0x8000_0000
            && -0x8000_0000 <= (a ^ b) < 0x8000_0000) by (bit_vector)
            requires
                -0x8000_0000 <= a < 0x8000_0000,
                -0x8000_0000 <= b < 0x8000_0000,
        ;
    }
}

/// A value of words is a word.
proof fn lemma_value_fits(op: BinaryOp, l: int, r: int, bits: nat)
    requires
        bits == 64 || bits == 32,
        fits(l, bits),
        fits(r, bits),
        value(op, l, r, bits) is Some,
    ensures
        fits(value(op, l, r, bits)->Some_0, bits),
{
    lemma_ranges();
    match op {
        BinaryOp::Add => lemma_wrapped_fits(l + r, bits),
        BinaryOp::Sub => lemma_wrapped_fits(l - r, bits),
        BinaryOp::Mul => lemma_wrapped_fits(l * r, bits),
        BinaryOp::Shl => lemma_wrapped_fits(l * pow2(r as nat), bits),
        BinaryOp::Mod => {
            lemma_rest(l, r, bits);
            lemma_wrapped_fits(l - truncated(l, r) * r, bits);
        },
        BinaryOp::Shr => {
            let p = pow2(r as nat) as int;
            vstd::arithmetic::power2::lemma_pow2_pos(r as nat);
            let q = l / p;
            assert((l >= 0 ==> 0 <= q <= l) && (l < 0 ==> l <= q < 0)) by (nonlinear_arith)
                requires
                    q == l / p,
                    p > 0,
            ;
        },
        BinaryOp::And | BinaryOp::BitAnd | BinaryOp::Or | BinaryOp::BitOr | BinaryOp::BitXor => {
            lemma_bits_fit(l, r, bits);
        },
        _ => {},
    }
}

/// The value of an expression is a word.
pub(crate) proof fn lemma_meaning_fits(e: Expr, vals: Map<Seq<char>, int>, a64: bool)
    requires
        words(vals, width(a64)),
        meaning(e, vals, width(a64)) is Some,
    ensures
        fits(meaning(e, vals, width(a64))->Some_0, width(a64)),
    decreases e,
{
    lemma_ranges();
    let w = width(a64);
    match e {
        Expr::Integer(i) => {
            lemma_constant(i.value, a64);
        },
        Expr::Unary(u) => {
            lemma_meaning_fits(*u.operand, vals, a64);
            lemma_wrapped_fits(-(meaning(*u.operand, vals, w)->Some_0), w);
        },
        Expr::Binary(b) => {
            lemma_meaning_fits(*b.left, vals, a64);
            lemma_meaning_fits(*b.right, vals, a64);
            lemma_value_fits(
                b.operator,
                meaning(*b.left, vals, w)->Some_0,
                meaning(*b.right, vals, w)->Some_0,
                w,
            );
        },
        Expr::Cast(k) => {
            lemma_meaning_fits(*k.expr, vals, a64);
        },
        _ => {},
    }
}

/// The text of an expression computes its value, in the target register.
#[verifier::rlimit(40)]
pub(crate) proof fn lemma_expr(env: Env, ctx: Ctx, st: Code, e: Expr, target: Seq<char>, vals: Map<Seq<char>, int>, from: Seq<char>, c0: Cpu, c: Cpu) -> (d: Cpu)
    requires
        leads(from, st.code, c0, c),
        simple(e),
        c.at is None ==> c.a64 == env.a64() && holds(c, st.vars, vals) && words(
            vals,
            width(env.a64()),
        ) && meaning(e, vals, width(env.a64())) is Some,
        free_register(env.a64(), target),
        target != tmp2(env.a64()),
    ensures
        expr_code(env, ctx, st, e, target) == st.with(expr_code(env, ctx, st, e, target).code),
        leads(from, expr_code(env, ctx, st, e, target).code, c0, d),
        c.at is None ==> gives(c, d, target, meaning(e, vals, width(env.a64()))->Some_0),
        c.at is Some ==> d == c,
    decreases e,
{
    lemma_operations();
    lemma_moves();
    let a = env.a64();
    lemma_pool(a);
    match e {
        Expr::Integer(i) => lemma_load_imm(from, st.code, a, target, i.value, c0, c),
        Expr::Bool(b) => lemma_load_imm(
            from,
            st.code,
            a,
            target,
            if b.value {
                1
            } else {
                0
            },
            c0,
            c,
        ),
        Expr::Identifier(id) => {
            if st.vars.contains_key(id.name@) {
                lemma_load_var(from, st.code, a, st.vars[id.name@], target, c0, c)
            } else {
                lemma_load_imm(from, st.code, a, target, 0, c0, c)
            }
        },
        Expr::Unary(u) => {
            let d1 = lemma_expr(env, ctx, st, *u.operand, target, vals, from, c0, c);
            let s1 = expr_code(env, ctx, st, *u.operand, target);
            let v = d1.regs[target];
            match u.operator {
                UnaryOp::Neg => {
                    reveal(ins2);
                    reveal(ins2i);
                    if c.at is None {
                        lemma_set(d1, target, wrapped(-v, width(a)));
                        lemma_chain(c, d1, d1.set(target, wrapped(-v, width(a))));
                    }
                    if a {
                        lemma_line(from, s1.code, c0, d1, Ins::Two("neg"@, target, target))
                    } else {
                        lemma_line(from, s1.code, c0, d1, Ins::TwoImm("rsbs"@, target, target, 0))
                    }
                },
                UnaryOp::BitNot => d1,
                _ => {
                    reveal(ins2i);
                    assert(0i64 ^ 1i64 == 1i64) by (bit_vector);
                    assert(1i64 ^ 1i64 == 0i64) by (bit_vector);
                    if c.at is None {
                        lemma_set(d1, target, 1 - v);
                        lemma_chain(c, d1, d1.set(target, 1 - v));
                    }
                    lemma_line(from, s1.code, c0, d1, Ins::TwoImm("eor"@, target, target, 1))
                },
            }
        },
        Expr::Binary(b) => lemma_binary(env, ctx, st, b, target, vals, from, c0, c),
        Expr::Cast(k) => lemma_expr(env, ctx, st, *k.expr, target, vals, from, c0, c),
        _ => c,
    }
}

/// The return register on the stack, and from it to the second scratch register.
proof fn lemma_stack_text(a64: bool)
    ensures
        push_reg(a64, ret(a64)) == ins_text(Ins::Push(a64, ret(a64))),
        pop_reg(a64, tmp2(a64)) == ins_text(Ins::Pop(a64, tmp2(a64))),
{
    reveal(push_reg);
    reveal(pop_reg);
}

/// Two operands: the left one in the second scratch register, the right one in
/// the first.
proof fn lemma_operands(env: Env, ctx: Ctx, st: Code, b: BinaryExpr, vals: Map<Seq<char>, int>, from: Seq<char>, c0: Cpu, c: Cpu) -> (d: Cpu)
    requires
        leads(from, st.code, c0, c),
        simple(*b.left),
        simple(*b.right),
        c.at is None ==> c.a64 == env.a64() && holds(c, st.vars, vals) && words(
            vals,
            width(env.a64()),
        ) && meaning(*b.left, vals, width(env.a64())) is Some && meaning(
            *b.right,
            vals,
            width(env.a64()),
        ) is Some,
    ensures
        ({
            let a = env.a64();
            let s1 = expr_code(env, ctx, st, *b.left, ret(a));
            let s2 = s1.with(s1.code + push_reg(a, ret(a)));
            let s3 = expr_code(env, ctx, s2, *b.right, tmp(a));
            &&& s1 == st.with(s1.code)
            &&& s3 == st.with(s3.code)
            &&& leads(from, s3.code + pop_reg(a, tmp2(a)), c0, d)
            &&& c.at is Some ==> d == c
            &&& c.at is None ==> {
                &&& same_store(c, d)
                &&& d.at is None
                &&& d.regs.contains_key(tmp(a))
                &&& d.regs.contains_key(tmp2(a))
                &&& d.regs[tmp2(a)] == meaning(*b.left, vals, width(a))->Some_0
                &&& d.regs[tmp(a)] == meaning(*b.right, vals, width(a))->Some_0
            }
        }),
    decreases b, 0nat,
{
    let a = env.a64();
    lemma_free(a);
    lemma_pool(a);
    lemma_stack_text(a);
    let d1 = lemma_expr(env, ctx, st, *b.left, ret(a), vals, from, c0, c);
    let s1 = expr_code(env, ctx, st, *b.left, ret(a));
    let d2 = lemma_line(from, s1.code, c0, d1, Ins::Push(a, ret(a)));
    let s2 = s1.with(s1.code + push_reg(a, ret(a)));
    if c.at is None {
        lemma_holds(c, d1, st.vars, vals);
        assert forall|n: Seq<char>| #[trigger] vals.contains_key(n) implies st.vars.contains_key(n)
            && held(d2, st.vars[n]) == Some(vals[n]) by {
            assert(held(d1, st.vars[n]) == Some(vals[n]));
        }
    }
    let d3 = lemma_expr(env, ctx, s2, *b.right, tmp(a), vals, from, c0, d2);
    let s3 = expr_code(env, ctx, s2, *b.right, tmp(a));
    let d4 = lemma_line(from, s3.code, c0, d3, Ins::Pop(a, tmp2(a)));
    if c.at is None {
        assert(d3.stack.drop_last() =~= d1.stack);
        assert forall|i: int| 0 <= i < pool_len(a) implies same_register(
            c,
            d4,
            #[trigger] pool_reg(a, i),
        ) by {
            assert(same_register(c, d1, pool_reg(a, i)));
            assert(same_register(d2, d3, pool_reg(a, i)));
        }
    }
    d4
}

/// The text of a binary operation computes its value.
proof fn lemma_binary(env: Env, ctx: Ctx, st: Code, b: BinaryExpr, target: Seq<char>, vals: Map<Seq<char>, int>, from: Seq<char>, c0: Cpu, c: Cpu) -> (d: Cpu)
    requires
        leads(from, st.code, c0, c),
        simple(*b.left),
        simple(*b.right),
        c.at is None ==> c.a64 == env.a64() && holds(c, st.vars, vals) && words(
            vals,
            width(env.a64()),
        ) && meaning(Expr::Binary(b), vals, width(env.a64())) is Some,
        free_register(env.a64(), target),
        target != tmp2(env.a64()),
    ensures
        binary_code(env, ctx, st, b, target) == st.with(binary_code(env, ctx, st, b, target).code),
        leads(from, binary_code(env, ctx, st, b, target).code, c0, d),
        c.at is None ==> gives(
            c,
            d,
            target,
            meaning(Expr::Binary(b), vals, width(env.a64()))->Some_0,
        ),
        c.at is Some ==> d == c,
    decreases b, 1nat,
{
    let a = env.a64();
    lemma_free(a);
    lemma_pool(a);
    let op = b.operator;
    if c.at is None {
        lemma_meaning_fits(*b.left, vals, a);
        lemma_meaning_fits(*b.right, vals, a);
    }
    if *b.right is Integer {
        let d1 = lemma_expr(env, ctx, st, *b.left, ret(a), vals, from, c0, c);
        let s1 = expr_code(env, ctx, st, *b.left, ret(a));
        let v = b.right->Integer_0.value;
        let d2 = lemma_imm_op(from, s1.code, a, op, target, v, c0, d1);
        if c.at is None {
            lemma_chain(c, d1, d2);
        }
        d2
    } else {
        let d1 = lemma_operands(env, ctx, st, b, vals, from, c0, c);
        let s1 = expr_code(env, ctx, st, *b.left, ret(a));
        let s2 = s1.with(s1.code + push_reg(a, ret(a)));
        let s3 = expr_code(env, ctx, s2, *b.right, tmp(a));
        let d2 = lemma_general_op(from, s3.code + pop_reg(a, tmp2(a)), a, op, target, c0, d1);
        if c.at is None {
            lemma_chain(c, d1, d2);
        }
        d2
    }
}

/// The text of an expression computes its value: run from a state in which the
/// variables hold their values, it leaves the value of the expression in the
/// target register, and the variables, the slots and the stack as they were. The
/// values are words of 64 bits on AArch64 and of 32 bits on ARM32.
pub proof fn law_expressions_compute_their_value(env: Env, ctx: Ctx, st: Code, e: Expr, target: Seq<char>, vals: Map<Seq<char>, int>, c: Cpu)
    requires
        c.at is None,
        c.a64 == env.a64(),
        holds(c, st.vars, vals),
        words(vals, width(env.a64())),
        meaning(e, vals, width(env.a64())) is Some,
        free_register(env.a64(), target),
        target != tmp2(env.a64()),
    ensures
        exists|d: Cpu| #[trigger]
            leads(st.code, expr_code(env, ctx, st, e, target).code, c, d) && gives(
                c,
                d,
                target,
                meaning(e, vals, width(env.a64()))->Some_0,
            ),
{
    lemma_leads_self(st.code, c);
    lemma_simple(e, vals, width(env.a64()));
    let d = lemma_expr(env, ctx, st, e, target, vals, st.code, c, c);
    assert(leads(st.code, expr_code(env, ctx, st, e, target).code, c, d));
}

// ---------------------------------------------------------------------------
// Conditions
// ---------------------------------------------------------------------------

/// Control has gone to `skip` where the condition does not hold, and goes on
/// where it does; the variables are left alone.
pub open spec fn tests(c: Cpu, d: Cpu, skip: Seq<char>, b: bool) -> bool {
    &&& same_store(c, d)
    &&& d.at == (if b {
        None
    } else {
        Some(skip)
    })
}

/// The names of conditional branches.
proof fn lemma_branch_names()
    ensures
        "b"@ + "eq"@ == "beq"@,
        "b"@ + "ne"@ == "bne"@,
        "b"@ + "lt"@ == "blt"@,
        "b"@ + "gt"@ == "bgt"@,
        "b"@ + "le"@ == "ble"@,
        "b"@ + "ge"@ == "bge"@,
{
    reveal_strlit("b");
    reveal_strlit("eq");
    reveal_strlit("ne");
    reveal_strlit("lt");
    reveal_strlit("gt");
    reveal_strlit("le");
    reveal_strlit("ge");
    reveal_strlit("beq");
    reveal_strlit("bne");
    reveal_strlit("blt");
    reveal_strlit("bgt");
    reveal_strlit("ble");
    reveal_strlit("bge");
    assert("b"@ + "eq"@ =~= "beq"@);
    assert("b"@ + "ne"@ =~= "bne"@);
    assert("b"@ + "lt"@ =~= "blt"@);
    assert("b"@ + "gt"@ =~= "bgt"@);
    assert("b"@ + "le"@ =~= "ble"@);
    assert("b"@ + "ge"@ =~= "bge"@);
}

/// The branch behind a comparison.
proof fn lemma_jump(from: Seq<char>, out: Seq<char>, op: BinaryOp, skip: Seq<char>, c0: Cpu, c: Cpu) -> (d: Cpu)
    requires
        leads(from, out, c0, c),
        cond_of(op) is Some,
    ensures
        leads(from, out + ins1("b"@ + inverse(cond_of(op)->Some_0), skip), c0, d),
        compares(op, c.compared.0, c.compared.1) is Some,
        c.at is None ==> tests(c, d, skip, compares(op, c.compared.0, c.compared.1)->Some_0),
        c.at is Some ==> d == c,
{
    reveal(cond_of);
    reveal(inverse);
    reveal(ins1);
    lemma_conditions();
    lemma_branches();
    lemma_branch_names();
    lemma_line(from, out, c0, c, Ins::Branch("b"@ + inverse(cond_of(op)->Some_0), skip))
}

/// A condition that is compared with zero.
pub(crate) proof fn lemma_plain_cond(env: Env, ctx: Ctx, st: Code, e: Expr, skip: Seq<char>, vals: Map<Seq<char>, int>, from: Seq<char>, c0: Cpu, c: Cpu) -> (d: Cpu)
    requires
        leads(from, st.code, c0, c),
        simple(e),
        c.at is None ==> c.a64 == env.a64() && holds(c, st.vars, vals) && words(
            vals,
            width(env.a64()),
        ) && meaning(e, vals, width(env.a64())) is Some,
    ensures
        plain_cond(env, ctx, st, e, skip) == st.with(plain_cond(env, ctx, st, e, skip).code),
        leads(from, plain_cond(env, ctx, st, e, skip).code, c0, d),
        c.at is None ==> tests(c, d, skip, meaning(e, vals, width(env.a64()))->Some_0 != 0),
        c.at is Some ==> d == c,
{
    let a = env.a64();
    lemma_free(a);
    lemma_moves();
    lemma_branches();
    lemma_pool(a);
    reveal(ins1);
    reveal(ins1i);
    let d1 = lemma_expr(env, ctx, st, e, ret(a), vals, from, c0, c);
    let s1 = expr_code(env, ctx, st, e, ret(a));
    let i = Ins::Imm("cmp"@, ret(a), 0);
    let d2 = lemma_line(from, s1.code, c0, d1, i);
    let d3 = lemma_line(from, s1.code + ins_text(i), c0, d2, Ins::Branch("beq"@, skip));
    if c.at is None {
        lemma_chain(c, d1, d3);
    }
    d3
}

/// The operations with a condition are the comparisons.
proof fn lemma_compares(op: BinaryOp, bits: nat)
    requires
        cond_of(op) is Some,
    ensures
        forall|l: int, r: int|
            (#[trigger] compares(op, l, r)) is Some && value(op, l, r, bits) == Some(
                truth(compares(op, l, r)->Some_0),
            ),
{
    reveal(cond_of);
}

/// The text of a condition goes on where the condition holds, and to `skip` where
/// it does not.
pub(crate) proof fn lemma_cond(env: Env, ctx: Ctx, st: Code, e: Expr, skip: Seq<char>, vals: Map<Seq<char>, int>, from: Seq<char>, c0: Cpu, c: Cpu) -> (d: Cpu)
    requires
        leads(from, st.code, c0, c),
        simple(e),
        c.at is None ==> c.a64 == env.a64() && holds(c, st.vars, vals) && words(
            vals,
            width(env.a64()),
        ) && meaning(e, vals, width(env.a64())) is Some,
    ensures
        cond_code(env, ctx, st, e, skip) == st.with(cond_code(env, ctx, st, e, skip).code),
        leads(from, cond_code(env, ctx, st, e, skip).code, c0, d),
        c.at is None ==> tests(c, d, skip, meaning(e, vals, width(env.a64()))->Some_0 != 0),
        c.at is Some ==> d == c,
{
    match e {
        Expr::Binary(b) => {
            if cond_of(b.operator) is Some {
                lemma_compared(env, ctx, st, b, skip, vals, from, c0, c)
            } else {
                lemma_plain_cond(env, ctx, st, e, skip, vals, from, c0, c)
            }
        },
        _ => lemma_plain_cond(env, ctx, st, e, skip, vals, from, c0, c),
    }
}

/// The text of a condition that is a comparison.
#[verifier::rlimit(40)]
proof fn lemma_compared(env: Env, ctx: Ctx, st: Code, b: BinaryExpr, skip: Seq<char>, vals: Map<Seq<char>, int>, from: Seq<char>, c0: Cpu, c: Cpu) -> (d: Cpu)
    requires
        leads(from, st.code, c0, c),
        simple(*b.left),
        simple(*b.right),
        c.at is None ==> c.a64 == env.a64() && holds(c, st.vars, vals) && words(
            vals,
            width(env.a64()),
        ) && meaning(Expr::Binary(b), vals, width(env.a64())) is Some,
        cond_of(b.operator) is Some,
    ensures
        cond_code(env, ctx, st, Expr::Binary(b), skip) == st.with(
            cond_code(env, ctx, st, Expr::Binary(b), skip).code,
        ),
        leads(from, cond_code(env, ctx, st, Expr::Binary(b), skip).code, c0, d),
        c.at is None ==> tests(
            c,
            d,
            skip,
            meaning(Expr::Binary(b), vals, width(env.a64()))->Some_0 != 0,
        ),
        c.at is Some ==> d == c,
{
    let a = env.a64();
    lemma_free(a);
    lemma_pool(a);
    lemma_moves();
    reveal(ins1i);
    reveal(ins2);
    let op = b.operator;
    lemma_compares(op, width(a));
    let d1 = lemma_expr(env, ctx, st, *b.left, ret(a), vals, from, c0, c);
    let s1 = expr_code(env, ctx, st, *b.left, ret(a));
    if *b.right is Integer {
        let v = b.right->Integer_0.value;
        if -2048 <= v <= 2047 {
            let i = Ins::Imm("cmp"@, ret(a), v as int);
            let d2 = lemma_line(from, s1.code, c0, d1, i);
            let d3 = lemma_jump(from, s1.code + ins_text(i), op, skip, c0, d2);
            if c.at is None {
                lemma_chain(c, d1, d3);
            }
            d3
        } else {
            let d2 = lemma_load_imm(from, s1.code, a, tmp(a), v, c0, d1);
            let o = load_imm(s1.code, a, tmp(a), v);
            let i = Ins::Two("cmp"@, ret(a), tmp(a));
            let d3 = lemma_line(from, o, c0, d2, i);
            let d4 = lemma_jump(from, o + ins_text(i), op, skip, c0, d3);
            if c.at is None {
                lemma_chain(c, d1, d2);
                lemma_chain(c, d2, d4);
            }
            d4
        }
    } else if plain_arg(*b.right) {
        if c.at is None {
            lemma_holds(c, d1, st.vars, vals);
        }
        let d2 = lemma_plain(env, ctx, s1, *b.right, vals, from, c0, d1);
        let s2 = expr_code(env, ctx, s1, *b.right, tmp(a));
        let i = Ins::Two("cmp"@, ret(a), tmp(a));
        let d3 = lemma_line(from, s2.code, c0, d2, i);
        let d4 = lemma_jump(from, s2.code + ins_text(i), op, skip, c0, d3);
        if c.at is None {
            lemma_chain(c, d1, d2);
            lemma_chain(c, d2, d4);
        }
        d4
    } else {
        let d2 = lemma_operands(env, ctx, st, b, vals, from, c0, c);
        let s2 = s1.with(s1.code + push_reg(a, ret(a)));
        let s3 = expr_code(env, ctx, s2, *b.right, tmp(a));
        let o = s3.code + pop_reg(a, tmp2(a));
        let i = Ins::Two("cmp"@, tmp2(a), tmp(a));
        let d3 = lemma_line(from, o, c0, d2, i);
        let d4 = lemma_jump(from, o + ins_text(i), op, skip, c0, d3);
        if c.at is None {
            lemma_chain(c, d2, d4);
        }
        d4
    }
}

/// A plain operand goes to the first scratch register and leaves the return
/// register alone.
proof fn lemma_plain(env: Env, ctx: Ctx, st: Code, e: Expr, vals: Map<Seq<char>, int>, from: Seq<char>, c0: Cpu, c: Cpu) -> (d: Cpu)
    requires
        leads(from, st.code, c0, c),
        simple(e),
        plain_arg(e),
        c.at is None ==> c.a64 == env.a64() && holds(c, st.vars, vals) && meaning(
            e,
            vals,
            width(env.a64()),
        ) is Some && c.regs.contains_key(ret(env.a64())),
    ensures
        expr_code(env, ctx, st, e, tmp(env.a64())) == st.with(
            expr_code(env, ctx, st, e, tmp(env.a64())).code,
        ),
        leads(from, expr_code(env, ctx, st, e, tmp(env.a64())).code, c0, d),
        c.at is Some ==> d == c,
        c.at is None ==> gives(c, d, tmp(env.a64()), meaning(e, vals, width(env.a64()))->Some_0)
            && d.regs.contains_key(ret(env.a64())) && d.regs[ret(env.a64())] == c.regs[ret(
            env.a64(),
        )],
{
    let a = env.a64();
    lemma_free(a);
    lemma_pool(a);
    match e {
        Expr::Integer(i) => lemma_load_imm(from, st.code, a, tmp(a), i.value, c0, c),
        Expr::Bool(b) => lemma_load_imm(
            from,
            st.code,
            a,
            tmp(a),
            if b.value {
                1
            } else {
                0
            },
            c0,
            c,
        ),
        Expr::Identifier(id) => {
            if st.vars.contains_key(id.name@) {
                lemma_load_var(from, st.code, a, st.vars[id.name@], tmp(a), c0, c)
            } else {
                lemma_load_imm(from, st.code, a, tmp(a), 0, c0, c)
            }
        },
        _ => c,
    }
}

/// The text of a condition goes on to what follows it exactly where the condition
/// holds, and to the label `skip` exactly where it does not: for every comparison
/// of two expressions, the branch is taken where the comparison is false of their
/// values.
pub proof fn law_conditions_skip_what_does_not_hold(env: Env, ctx: Ctx, st: Code, e: Expr, skip: Seq<char>, vals: Map<Seq<char>, int>, c: Cpu)
    requires
        c.at is None,
        c.a64 == env.a64(),
        holds(c, st.vars, vals),
        words(vals, width(env.a64())),
        meaning(e, vals, width(env.a64())) is Some,
    ensures
        exists|d: Cpu| #[trigger]
            leads(st.code, cond_code(env, ctx, st, e, skip).code, c, d) && tests(
                c,
                d,
                skip,
                meaning(e, vals, width(env.a64()))->Some_0 != 0,
            ),
{
    lemma_leads_self(st.code, c);
    lemma_simple(e, vals, width(env.a64()));
    let d = lemma_cond(env, ctx, st, e, skip, vals, st.code, c, c);
    assert(leads(st.code, cond_code(env, ctx, st, e, skip).code, c, d));
}

} // verus!
