//! What x86_64 assembly text does.
//!
//! A processor runs the lines of straight-line code and of jumps forward. The
//! laws say that the text of expressions and conditions computes what they
//! mean.

use vstd::prelude::*;
use vstd::arithmetic::power2::pow2;
use crate::ast::{BinaryExpr, BinaryOp, Expr, UnaryOp};
use crate::cstar::raw::common::{plain_arg, VarLoc};
use crate::cstar::raw::flow::simple;
use crate::cstar::raw::lines::{ins1, ins1n, ins2};
use crate::cstar::raw::model::{Ctx, Env};
use crate::cstar::raw::x86_model::{
    binary_code, Code, cond_code, cond_of, expr_code, general_op, imm_op, load_slot, load_var,
    load_var_unless, mov_rax, plain_cond, pool_reg, rax_op, set_rax, skip_jump,
};
use crate::meaning::{
    any_bits, both_bits, compares, fits, left_behind, other_bits, truncated, truth, value, wrapped,
};
use crate::text::{dec, int_dec};

verus! {

// ---------------------------------------------------------------------------
// Lines
// ---------------------------------------------------------------------------

/// A line of assembly text.
pub enum Ins {
    /// `m d, v`
    Imm(Seq<char>, Seq<char>, int),
    /// `m d, s`
    Two(Seq<char>, Seq<char>, Seq<char>),
    /// `m d`
    One(Seq<char>, Seq<char>),
    /// `mov d, qword ptr [rbp+o]`
    Load(Seq<char>, int),
    /// `mov qword ptr [rbp+o], s`
    Store(int, Seq<char>),
    /// `cqo`
    Extend,
    /// `setc al`
    Flag(Seq<char>),
    /// `movzx rax, al`
    Widen,
    /// `m label`
    Jump(Seq<char>, Seq<char>),
    /// `label:`
    Label(Seq<char>),
}

/// The text of a line.
pub open spec fn ins_text(i: Ins) -> Seq<char> {
    match i {
        Ins::Imm(m, d, v) => "    "@ + m + " "@ + d + ", "@ + int_dec(v) + "\n"@,
        Ins::Two(m, d, s) => "    "@ + m + " "@ + d + ", "@ + s + "\n"@,
        Ins::One(m, d) => "    "@ + m + " "@ + d + "\n"@,
        Ins::Load(d, o) => "    mov "@ + d + ", qword ptr [rbp"@ + int_dec(o) + "]\n"@,
        Ins::Store(o, s) => "    mov qword ptr [rbp"@ + int_dec(o) + "], "@ + s + "\n"@,
        Ins::Extend => "    cqo\n"@,
        Ins::Flag(c) => "    set"@ + c + " al\n"@,
        Ins::Widen => "    movzx rax, al\n"@,
        Ins::Jump(m, l) => "    "@ + m + " "@ + l + "\n"@,
        Ins::Label(l) => l + ":\n"@,
    }
}

/// The text with more lines.
pub open spec fn with_code(o: Seq<char>, code: Seq<Ins>) -> Seq<char>
    decreases code.len(),
{
    if code.len() == 0 {
        o
    } else {
        with_code(o, code.drop_last()) + ins_text(code.last())
    }
}

// ---------------------------------------------------------------------------
// The processor
// ---------------------------------------------------------------------------

/// The state of the processor: registers, the slots of the frame by their offset,
/// what was pushed, the operands of the last comparison, and the label that a jump
/// has gone to and that has not been met yet.
pub struct Cpu {
    pub regs: Map<Seq<char>, int>,
    pub slots: Map<int, int>,
    pub stack: Seq<int>,
    pub compared: (int, int),
    pub at: Option<Seq<char>>,
}

impl Cpu {
    /// The same state with another value in a register.
    pub open spec fn set(self, r: Seq<char>, v: int) -> Cpu {
        Cpu { regs: self.regs.insert(r, v), ..self }
    }
}

/// The value that an operation gives its first operand.
pub open spec fn computed(m: Seq<char>, l: int, r: int) -> Option<int> {
    if m == "mov"@ {
        Some(r)
    } else if m == "add"@ {
        Some(wrapped(l + r, 64))
    } else if m == "sub"@ {
        Some(wrapped(l - r, 64))
    } else if m == "imul"@ {
        Some(wrapped(l * r, 64))
    } else if m == "and"@ {
        Some(both_bits(l, r))
    } else if m == "or"@ {
        Some(any_bits(l, r))
    } else if m == "xor"@ {
        Some(other_bits(l, r))
    } else if m == "shl"@ && 0 <= r < 64 {
        Some(wrapped(l * pow2(r as nat), 64))
    } else if m == "sar"@ && 0 <= r < 64 {
        Some(l / (pow2(r as nat) as int))
    } else {
        None
    }
}

/// The jump is taken behind the comparison of `l` with `r`.
pub open spec fn taken(m: Seq<char>, l: int, r: int) -> Option<bool> {
    if m == "jmp"@ {
        Some(true)
    } else if m == "je"@ {
        Some(l == r)
    } else if m == "jne"@ {
        Some(l != r)
    } else if m == "jl"@ || m == "jnge"@ {
        Some(l < r)
    } else if m == "jnl"@ || m == "jge"@ {
        Some(l >= r)
    } else if m == "jg"@ || m == "jnle"@ {
        Some(l > r)
    } else if m == "jng"@ || m == "jle"@ {
        Some(l <= r)
    } else {
        None
    }
}

/// The condition of a `set` instruction holds behind the comparison of `l` with
/// `r`.
pub open spec fn set_holds(c: Seq<char>, l: int, r: int) -> Option<bool> {
    if c == "e"@ {
        Some(l == r)
    } else if c == "ne"@ {
        Some(l != r)
    } else if c == "l"@ {
        Some(l < r)
    } else if c == "g"@ {
        Some(l > r)
    } else if c == "le"@ {
        Some(l <= r)
    } else if c == "ge"@ {
        Some(l >= r)
    } else {
        None
    }
}

/// What a line does; none where it has no meaning.
pub open spec fn effect(c: Cpu, i: Ins) -> Option<Cpu> {
    match i {
        Ins::Imm(m, d, v) => if m == "cmp"@ {
            if c.regs.contains_key(d) {
                Some(Cpu { compared: (c.regs[d], v), ..c })
            } else {
                None
            }
        } else if m == "mov"@ {
            Some(c.set(d, v))
        } else if c.regs.contains_key(d) {
            match computed(m, c.regs[d], v) {
                Some(x) => Some(c.set(d, x)),
                None => None,
            }
        } else {
            None
        },
        Ins::Two(m, d, s) => {
            let from = if s == "cl"@ {
                "rcx"@
            } else {
                s
            };
            if !c.regs.contains_key(from) || (s == "cl"@) != (m == "shl"@ || m == "sar"@) {
                None
            } else if m == "mov"@ {
                Some(c.set(d, c.regs[from]))
            } else if !c.regs.contains_key(d) {
                None
            } else if m == "cmp"@ {
                Some(Cpu { compared: (c.regs[d], c.regs[from]), ..c })
            } else {
                match computed(m, c.regs[d], c.regs[from]) {
                    Some(x) => Some(c.set(d, x)),
                    None => None,
                }
            }
        },
        Ins::One(m, d) => if m == "neg"@ && c.regs.contains_key(d) {
            Some(c.set(d, wrapped(-c.regs[d], 64)))
        } else if m == "push"@ && c.regs.contains_key(d) {
            Some(Cpu { stack: c.stack.push(c.regs[d]), ..c })
        } else if m == "pop"@ && c.stack.len() > 0 {
            Some(Cpu { stack: c.stack.drop_last(), ..c.set(d, c.stack.last()) })
        } else if m == "idiv"@ {
            divided(c, d)
        } else {
            None
        },
        Ins::Load(d, o) => if c.slots.contains_key(o) {
            Some(c.set(d, c.slots[o]))
        } else {
            None
        },
        Ins::Store(o, s) => if c.regs.contains_key(s) {
            Some(Cpu { slots: c.slots.insert(o, c.regs[s]), ..c })
        } else {
            None
        },
        Ins::Extend => if c.regs.contains_key("rax"@) {
            Some(
                c.set(
                    "rdx"@,
                    if c.regs["rax"@] < 0 {
                        -1
                    } else {
                        0
                    },
                ),
            )
        } else {
            None
        },
        Ins::Flag(k) => match set_holds(k, c.compared.0, c.compared.1) {
            Some(b) => Some(
                Cpu { regs: c.regs.remove("rax"@).insert("al"@, truth(b)), ..c },
            ),
            None => None,
        },
        Ins::Widen => if c.regs.contains_key("al"@) {
            Some(c.set("rax"@, c.regs["al"@]))
        } else {
            None
        },
        Ins::Jump(m, l) => match taken(m, c.compared.0, c.compared.1) {
            Some(b) => Some(
                if b {
                    Cpu { at: Some(l), ..c }
                } else {
                    c
                },
            ),
            None => None,
        },
        Ins::Label(_) => Some(c),
    }
}

/// The signed division of `rax`, whose sign is in `rdx`: the quotient goes to
/// `rax` and the remainder to `rdx`.
pub open spec fn divided(c: Cpu, s: Seq<char>) -> Option<Cpu> {
    if c.regs.contains_key("rax"@) && c.regs.contains_key("rdx"@) && c.regs.contains_key(s) {
        let (l, r) = (c.regs["rax"@], c.regs[s]);
        if r != 0 && fits(truncated(l, r), 64) && c.regs["rdx"@] == (if l < 0 {
            -1int
        } else {
            0
        }) {
            Some(c.set("rax"@, truncated(l, r)).set("rdx"@, left_behind(l, r)))
        } else {
            None
        }
    } else {
        None
    }
}

/// The state behind a line. Behind a jump every line is passed over up to the
/// label that it goes to.
pub open spec fn after_ins(c: Cpu, i: Ins) -> Option<Cpu> {
    match c.at {
        Some(l) => Some(
            if i == Ins::Label(l) {
                Cpu { at: None, ..c }
            } else {
                c
            },
        ),
        None => effect(c, i),
    }
}

/// The state behind lines.
pub open spec fn after(c: Cpu, code: Seq<Ins>) -> Option<Cpu>
    decreases code.len(),
{
    if code.len() == 0 {
        Some(c)
    } else {
        match after(c, code.drop_last()) {
            Some(d) => after_ins(d, code.last()),
            None => None,
        }
    }
}

/// The text `to` goes on from `from` by lines that lead from `c` to `d`.
pub open spec fn leads(from: Seq<char>, to: Seq<char>, c: Cpu, d: Cpu) -> bool {
    exists|code: Seq<Ins>| to == #[trigger] with_code(from, code) && after(c, code) == Some(d)
}

/// No line.
pub proof fn lemma_leads_self(x: Seq<char>, c: Cpu)
    ensures
        leads(x, x, c, c),
{
    let code = Seq::<Ins>::empty();
    assert(with_code(x, code) == x);
}

/// One more line.
pub proof fn lemma_line(from: Seq<char>, to: Seq<char>, c: Cpu, d: Cpu, i: Ins) -> (e: Cpu)
    requires
        leads(from, to, c, d),
        after_ins(d, i) is Some,
    ensures
        leads(from, to + ins_text(i), c, e),
        e == after_ins(d, i)->Some_0,
{
    let code = choose|code: Seq<Ins>|
        to == #[trigger] with_code(from, code) && after(c, code) == Some(d);
    let all = code.push(i);
    assert(all.drop_last() =~= code);
    assert(with_code(from, all) == to + ins_text(i));
    after_ins(d, i)->Some_0
}

// ---------------------------------------------------------------------------
// Names
// ---------------------------------------------------------------------------

/// The names of the operations differ.
pub(crate) proof fn lemma_operations()
    ensures
        "mov"@ != "add"@,
        "mov"@ != "sub"@,
        "mov"@ != "imul"@,
        "mov"@ != "and"@,
        "mov"@ != "or"@,
        "mov"@ != "xor"@,
        "mov"@ != "cmp"@,
        "mov"@ != "shl"@,
        "mov"@ != "sar"@,
        "add"@ != "sub"@,
        "add"@ != "imul"@,
        "add"@ != "and"@,
        "add"@ != "or"@,
        "add"@ != "xor"@,
        "add"@ != "cmp"@,
        "add"@ != "shl"@,
        "add"@ != "sar"@,
        "sub"@ != "imul"@,
        "sub"@ != "and"@,
        "sub"@ != "or"@,
        "sub"@ != "xor"@,
        "sub"@ != "cmp"@,
        "sub"@ != "shl"@,
        "sub"@ != "sar"@,
        "imul"@ != "and"@,
        "imul"@ != "or"@,
        "imul"@ != "xor"@,
        "imul"@ != "cmp"@,
        "imul"@ != "shl"@,
        "imul"@ != "sar"@,
        "and"@ != "or"@,
        "and"@ != "xor"@,
        "and"@ != "cmp"@,
        "and"@ != "shl"@,
        "and"@ != "sar"@,
        "or"@ != "xor"@,
        "or"@ != "cmp"@,
        "or"@ != "shl"@,
        "or"@ != "sar"@,
        "xor"@ != "cmp"@,
        "xor"@ != "shl"@,
        "xor"@ != "sar"@,
        "cmp"@ != "shl"@,
        "cmp"@ != "sar"@,
        "shl"@ != "sar"@,
{
    reveal_strlit("mov");
    reveal_strlit("add");
    reveal_strlit("sub");
    reveal_strlit("imul");
    reveal_strlit("and");
    reveal_strlit("or");
    reveal_strlit("xor");
    reveal_strlit("cmp");
    reveal_strlit("shl");
    reveal_strlit("sar");
    assert("mov"@[0] != "add"@[0]);
    assert("mov"@[0] != "sub"@[0]);
    assert("mov"@.len() != "imul"@.len());
    assert("mov"@[0] != "and"@[0]);
    assert("mov"@.len() != "or"@.len());
    assert("mov"@[0] != "xor"@[0]);
    assert("mov"@[0] != "cmp"@[0]);
    assert("mov"@[0] != "shl"@[0]);
    assert("mov"@[0] != "sar"@[0]);
    assert("add"@[0] != "sub"@[0]);
    assert("add"@.len() != "imul"@.len());
    assert("add"@[1] != "and"@[1]);
    assert("add"@.len() != "or"@.len());
    assert("add"@[0] != "xor"@[0]);
    assert("add"@[0] != "cmp"@[0]);
    assert("add"@[0] != "shl"@[0]);
    assert("add"@[0] != "sar"@[0]);
    assert("sub"@.len() != "imul"@.len());
    assert("sub"@[0] != "and"@[0]);
    assert("sub"@.len() != "or"@.len());
    assert("sub"@[0] != "xor"@[0]);
    assert("sub"@[0] != "cmp"@[0]);
    assert("sub"@[1] != "shl"@[1]);
    assert("sub"@[1] != "sar"@[1]);
    assert("imul"@.len() != "and"@.len());
    assert("imul"@.len() != "or"@.len());
    assert("imul"@.len() != "xor"@.len());
    assert("imul"@.len() != "cmp"@.len());
    assert("imul"@.len() != "shl"@.len());
    assert("imul"@.len() != "sar"@.len());
    assert("and"@.len() != "or"@.len());
    assert("and"@[0] != "xor"@[0]);
    assert("and"@[0] != "cmp"@[0]);
    assert("and"@[0] != "shl"@[0]);
    assert("and"@[0] != "sar"@[0]);
    assert("or"@.len() != "xor"@.len());
    assert("or"@.len() != "cmp"@.len());
    assert("or"@.len() != "shl"@.len());
    assert("or"@.len() != "sar"@.len());
    assert("xor"@[0] != "cmp"@[0]);
    assert("xor"@[0] != "shl"@[0]);
    assert("xor"@[0] != "sar"@[0]);
    assert("cmp"@[0] != "shl"@[0]);
    assert("cmp"@[0] != "sar"@[0]);
    assert("shl"@[1] != "sar"@[1]);
}

/// The names of the operations with one operand differ.
pub(crate) proof fn lemma_single()
    ensures
        "neg"@ != "push"@,
        "neg"@ != "pop"@,
        "neg"@ != "idiv"@,
        "push"@ != "pop"@,
        "push"@ != "idiv"@,
        "pop"@ != "idiv"@,
{
    reveal_strlit("neg");
    reveal_strlit("push");
    reveal_strlit("pop");
    reveal_strlit("idiv");
    assert("neg"@.len() != "push"@.len());
    assert("neg"@[0] != "pop"@[0]);
    assert("neg"@.len() != "idiv"@.len());
    assert("push"@.len() != "pop"@.len());
    assert("push"@[0] != "idiv"@[0]);
    assert("pop"@.len() != "idiv"@.len());
}

/// The names of the jumps differ.
pub(crate) proof fn lemma_jumps()
    ensures
        "jmp"@ != "je"@,
        "jmp"@ != "jne"@,
        "jmp"@ != "jl"@,
        "jmp"@ != "jnl"@,
        "jmp"@ != "jg"@,
        "jmp"@ != "jng"@,
        "jmp"@ != "jle"@,
        "jmp"@ != "jnle"@,
        "jmp"@ != "jge"@,
        "jmp"@ != "jnge"@,
        "je"@ != "jne"@,
        "je"@ != "jl"@,
        "je"@ != "jnl"@,
        "je"@ != "jg"@,
        "je"@ != "jng"@,
        "je"@ != "jle"@,
        "je"@ != "jnle"@,
        "je"@ != "jge"@,
        "je"@ != "jnge"@,
        "jne"@ != "jl"@,
        "jne"@ != "jnl"@,
        "jne"@ != "jg"@,
        "jne"@ != "jng"@,
        "jne"@ != "jle"@,
        "jne"@ != "jnle"@,
        "jne"@ != "jge"@,
        "jne"@ != "jnge"@,
        "jl"@ != "jnl"@,
        "jl"@ != "jg"@,
        "jl"@ != "jng"@,
        "jl"@ != "jle"@,
        "jl"@ != "jnle"@,
        "jl"@ != "jge"@,
        "jl"@ != "jnge"@,
        "jnl"@ != "jg"@,
        "jnl"@ != "jng"@,
        "jnl"@ != "jle"@,
        "jnl"@ != "jnle"@,
        "jnl"@ != "jge"@,
        "jnl"@ != "jnge"@,
        "jg"@ != "jng"@,
        "jg"@ != "jle"@,
        "jg"@ != "jnle"@,
        "jg"@ != "jge"@,
        "jg"@ != "jnge"@,
        "jng"@ != "jle"@,
        "jng"@ != "jnle"@,
        "jng"@ != "jge"@,
        "jng"@ != "jnge"@,
        "jle"@ != "jnle"@,
        "jle"@ != "jge"@,
        "jle"@ != "jnge"@,
        "jnle"@ != "jge"@,
        "jnle"@ != "jnge"@,
        "jge"@ != "jnge"@,
{
    reveal_strlit("jmp");
    reveal_strlit("je");
    reveal_strlit("jne");
    reveal_strlit("jl");
    reveal_strlit("jnl");
    reveal_strlit("jg");
    reveal_strlit("jng");
    reveal_strlit("jle");
    reveal_strlit("jnle");
    reveal_strlit("jge");
    reveal_strlit("jnge");
    assert("jmp"@.len() != "je"@.len());
    assert("jmp"@[1] != "jne"@[1]);
    assert("jmp"@.len() != "jl"@.len());
    assert("jmp"@[1] != "jnl"@[1]);
    assert("jmp"@.len() != "jg"@.len());
    assert("jmp"@[1] != "jng"@[1]);
    assert("jmp"@[1] != "jle"@[1]);
    assert("jmp"@.len() != "jnle"@.len());
    assert("jmp"@[1] != "jge"@[1]);
    assert("jmp"@.len() != "jnge"@.len());
    assert("je"@.len() != "jne"@.len());
    assert("je"@[1] != "jl"@[1]);
    assert("je"@.len() != "jnl"@.len());
    assert("je"@[1] != "jg"@[1]);
    assert("je"@.len() != "jng"@.len());
    assert("je"@.len() != "jle"@.len());
    assert("je"@.len() != "jnle"@.len());
    assert("je"@.len() != "jge"@.len());
    assert("je"@.len() != "jnge"@.len());
    assert("jne"@.len() != "jl"@.len());
    assert("jne"@[2] != "jnl"@[2]);
    assert("jne"@.len() != "jg"@.len());
    assert("jne"@[2] != "jng"@[2]);
    assert("jne"@[1] != "jle"@[1]);
    assert("jne"@.len() != "jnle"@.len());
    assert("jne"@[1] != "jge"@[1]);
    assert("jne"@.len() != "jnge"@.len());
    assert("jl"@.len() != "jnl"@.len());
    assert("jl"@[1] != "jg"@[1]);
    assert("jl"@.len() != "jng"@.len());
    assert("jl"@.len() != "jle"@.len());
    assert("jl"@.len() != "jnle"@.len());
    assert("jl"@.len() != "jge"@.len());
    assert("jl"@.len() != "jnge"@.len());
    assert("jnl"@.len() != "jg"@.len());
    assert("jnl"@[2] != "jng"@[2]);
    assert("jnl"@[1] != "jle"@[1]);
    assert("jnl"@.len() != "jnle"@.len());
    assert("jnl"@[1] != "jge"@[1]);
    assert("jnl"@.len() != "jnge"@.len());
    assert("jg"@.len() != "jng"@.len());
    assert("jg"@.len() != "jle"@.len());
    assert("jg"@.len() != "jnle"@.len());
    assert("jg"@.len() != "jge"@.len());
    assert("jg"@.len() != "jnge"@.len());
    assert("jng"@[1] != "jle"@[1]);
    assert("jng"@.len() != "jnle"@.len());
    assert("jng"@[1] != "jge"@[1]);
    assert("jng"@.len() != "jnge"@.len());
    assert("jle"@.len() != "jnle"@.len());
    assert("jle"@[1] != "jge"@[1]);
    assert("jle"@.len() != "jnge"@.len());
    assert("jnle"@.len() != "jge"@.len());
    assert("jnle"@[2] != "jnge"@[2]);
    assert("jge"@.len() != "jnge"@.len());
}

/// The names of the conditions differ.
proof fn lemma_conditions()
    ensures
        "e"@ != "ne"@,
        "e"@ != "l"@,
        "e"@ != "g"@,
        "e"@ != "le"@,
        "e"@ != "ge"@,
        "ne"@ != "l"@,
        "ne"@ != "g"@,
        "ne"@ != "le"@,
        "ne"@ != "ge"@,
        "l"@ != "g"@,
        "l"@ != "le"@,
        "l"@ != "ge"@,
        "g"@ != "le"@,
        "g"@ != "ge"@,
        "le"@ != "ge"@,
{
    reveal_strlit("e");
    reveal_strlit("ne");
    reveal_strlit("l");
    reveal_strlit("g");
    reveal_strlit("le");
    reveal_strlit("ge");
    assert("e"@.len() != "ne"@.len());
    assert("e"@[0] != "l"@[0]);
    assert("e"@[0] != "g"@[0]);
    assert("e"@.len() != "le"@.len());
    assert("e"@.len() != "ge"@.len());
    assert("ne"@.len() != "l"@.len());
    assert("ne"@.len() != "g"@.len());
    assert("ne"@[0] != "le"@[0]);
    assert("ne"@[0] != "ge"@[0]);
    assert("l"@[0] != "g"@[0]);
    assert("l"@.len() != "le"@.len());
    assert("l"@.len() != "ge"@.len());
    assert("g"@.len() != "le"@.len());
    assert("g"@.len() != "ge"@.len());
    assert("le"@[0] != "ge"@[0]);
}

/// The names of the registers differ.
pub(crate) proof fn lemma_registers()
    ensures
        "rax"@ != "rcx"@,
        "rax"@ != "rdx"@,
        "rax"@ != "rbx"@,
        "rax"@ != "r13"@,
        "rax"@ != "r14"@,
        "rax"@ != "r15"@,
        "rax"@ != "al"@,
        "rcx"@ != "rdx"@,
        "rcx"@ != "rbx"@,
        "rcx"@ != "r13"@,
        "rcx"@ != "r14"@,
        "rcx"@ != "r15"@,
        "rcx"@ != "al"@,
        "rdx"@ != "rbx"@,
        "rdx"@ != "r13"@,
        "rdx"@ != "r14"@,
        "rdx"@ != "r15"@,
        "rdx"@ != "al"@,
        "rbx"@ != "r13"@,
        "rbx"@ != "r14"@,
        "rbx"@ != "r15"@,
        "rbx"@ != "al"@,
        "r13"@ != "r14"@,
        "r13"@ != "r15"@,
        "r13"@ != "al"@,
        "r14"@ != "r15"@,
        "r14"@ != "al"@,
        "r15"@ != "al"@,
{
    reveal_strlit("rax");
    reveal_strlit("rcx");
    reveal_strlit("rdx");
    reveal_strlit("rbx");
    reveal_strlit("r13");
    reveal_strlit("r14");
    reveal_strlit("r15");
    reveal_strlit("al");
    assert("rax"@[1] != "rcx"@[1]);
    assert("rax"@[1] != "rdx"@[1]);
    assert("rax"@[1] != "rbx"@[1]);
    assert("rax"@[1] != "r13"@[1]);
    assert("rax"@[1] != "r14"@[1]);
    assert("rax"@[1] != "r15"@[1]);
    assert("rax"@.len() != "al"@.len());
    assert("rcx"@[1] != "rdx"@[1]);
    assert("rcx"@[1] != "rbx"@[1]);
    assert("rcx"@[1] != "r13"@[1]);
    assert("rcx"@[1] != "r14"@[1]);
    assert("rcx"@[1] != "r15"@[1]);
    assert("rcx"@.len() != "al"@.len());
    assert("rdx"@[1] != "rbx"@[1]);
    assert("rdx"@[1] != "r13"@[1]);
    assert("rdx"@[1] != "r14"@[1]);
    assert("rdx"@[1] != "r15"@[1]);
    assert("rdx"@.len() != "al"@.len());
    assert("rbx"@[1] != "r13"@[1]);
    assert("rbx"@[1] != "r14"@[1]);
    assert("rbx"@[1] != "r15"@[1]);
    assert("rbx"@.len() != "al"@.len());
    assert("r13"@[2] != "r14"@[2]);
    assert("r13"@[2] != "r15"@[2]);
    assert("r13"@.len() != "al"@.len());
    assert("r14"@[2] != "r15"@[2]);
    assert("r14"@.len() != "al"@.len());
    assert("r15"@.len() != "al"@.len());
}

/// The byte of the shift count is no register of its own.
pub(crate) proof fn lemma_count_name()
    ensures
        "cl"@ != "rax"@,
        "cl"@ != "rcx"@,
        "cl"@ != "rdx"@,
        forall|i: int| "cl"@ != #[trigger] pool_reg(i),
{
    reveal_strlit("cl");
    reveal_strlit("rax");
    reveal_strlit("rcx");
    reveal_strlit("rdx");
    reveal_strlit("rbx");
    reveal_strlit("r13");
    reveal_strlit("r14");
    reveal_strlit("r15");
    reveal(pool_reg);
    assert("cl"@.len() != "rax"@.len() && "cl"@.len() != "rcx"@.len() && "cl"@.len()
        != "rdx"@.len());
    assert forall|i: int| "cl"@ != #[trigger] pool_reg(i) by {
        assert(pool_reg(i).len() == 3);
    }
}

/// The registers of variables differ from each other and from those that
/// operations use.
pub(crate) proof fn lemma_pool()
    ensures
        forall|i: int| #[trigger]
            pool_reg(i) != "rax"@ && pool_reg(i) != "rcx"@ && pool_reg(i) != "rdx"@ && pool_reg(i)
                != "al"@,
        forall|i: int, j: int|
            #![trigger pool_reg(i), pool_reg(j)]
            0 <= i < j < 4 ==> pool_reg(i) != pool_reg(j),
{
    lemma_registers();
    reveal(pool_reg);
}

/// Behind the third all registers of variables are the last one.
proof fn lemma_pool_range(i: int)
    ensures
        exists|j: int| 0 <= j < 4 && pool_reg(i) == #[trigger] pool_reg(j),
{
    reveal(pool_reg);
    assert(pool_reg(3) == "r15"@);
    assert(pool_reg(i) == pool_reg(0) || pool_reg(i) == pool_reg(1) || pool_reg(i) == pool_reg(2)
        || pool_reg(i) == pool_reg(3));
}

// ---------------------------------------------------------------------------
// What expressions mean
// ---------------------------------------------------------------------------

/// The value of an expression of integers, truth values and variables; none for
/// other expressions, and where an operation in it has no value.
pub open spec fn meaning(e: Expr, vals: Map<Seq<char>, int>) -> Option<int>
    decreases e,
{
    match e {
        Expr::Integer(i) => Some(i.value as int),
        Expr::Bool(b) => Some(truth(b.value)),
        Expr::Identifier(id) => if vals.contains_key(id.name@) {
            Some(vals[id.name@])
        } else {
            None
        },
        Expr::Unary(u) => match meaning(*u.operand, vals) {
            Some(v) => match u.operator {
                UnaryOp::Neg => Some(wrapped(-v, 64)),
                UnaryOp::Not | UnaryOp::Bang => if v == 0 || v == 1 {
                    Some(1 - v)
                } else {
                    None
                },
                _ => None,
            },
            None => None,
        },
        Expr::Binary(b) => match (meaning(*b.left, vals), meaning(*b.right, vals)) {
            (Some(l), Some(r)) => value(b.operator, l, r, 64),
            _ => None,
        },
        Expr::Cast(c) => meaning(*c.expr, vals),
        _ => None,
    }
}

/// What a location holds.
pub open spec fn held(c: Cpu, l: VarLoc) -> Option<int> {
    match l {
        VarLoc::Reg(i) => if i < 4 && c.regs.contains_key(pool_reg(i as int)) {
            Some(c.regs[pool_reg(i as int)])
        } else {
            None
        },
        VarLoc::Stack(o) => if c.slots.contains_key(o as int) {
            Some(c.slots[o as int])
        } else {
            None
        },
    }
}

/// Every variable with a value has a location that holds it.
pub open spec fn holds(c: Cpu, vars: Map<Seq<char>, VarLoc>, vals: Map<Seq<char>, int>) -> bool {
    forall|n: Seq<char>| #[trigger]
        vals.contains_key(n) ==> vars.contains_key(n) && held(c, vars[n]) == Some(vals[n])
}

/// The registers of variables, the slots and the stack are the same.
pub open spec fn same_store(c: Cpu, d: Cpu) -> bool {
    &&& forall|i: int| 0 <= i < 4 ==> same_register(c, d, #[trigger] pool_reg(i))
    &&& c.slots == d.slots
    &&& c.stack == d.stack
}

/// A register holds the same in both states.
pub open spec fn same_register(c: Cpu, d: Cpu, r: Seq<char>) -> bool {
    &&& c.regs.contains_key(r) == d.regs.contains_key(r)
    &&& c.regs.contains_key(r) ==> c.regs[r] == d.regs[r]
}

/// The register holds no variable, and is no part of one that operations use.
pub open spec fn free_register(r: Seq<char>) -> bool {
    &&& forall|i: int| 0 <= i < 4 ==> r != #[trigger] pool_reg(i)
    &&& r != "cl"@
    &&& r != "al"@
}

/// A value in a free register leaves the variables alone.
pub(crate) proof fn lemma_set(c: Cpu, r: Seq<char>, v: int)
    requires
        free_register(r),
    ensures
        same_store(c, c.set(r, v)),
{
}

/// Variables that are left alone hold what they held.
pub(crate) proof fn lemma_holds(c: Cpu, d: Cpu, vars: Map<Seq<char>, VarLoc>, vals: Map<Seq<char>, int>)
    requires
        same_store(c, d),
        holds(c, vars, vals),
    ensures
        holds(d, vars, vals),
{
    assert forall|n: Seq<char>| #[trigger] vals.contains_key(n) implies vars.contains_key(n)
        && held(d, vars[n]) == Some(vals[n]) by {
        match vars[n] {
            VarLoc::Reg(i) => {
                assert(same_register(c, d, pool_reg(i as int)));
            },
            VarLoc::Stack(_) => {},
        }
    }
}

/// The registers that operations use are free.
pub(crate) proof fn lemma_free()
    ensures
        free_register("rax"@),
        free_register("rcx"@),
        free_register("rdx"@),
{
    lemma_registers();
    lemma_pool();
    lemma_count_name();
}

// ---------------------------------------------------------------------------
// Expressions
// ---------------------------------------------------------------------------

/// An expression with a meaning is simple.
pub(crate) proof fn lemma_simple(e: Expr, vals: Map<Seq<char>, int>)
    requires
        meaning(e, vals) is Some,
    ensures
        simple(e),
    decreases e,
{
    match e {
        Expr::Unary(u) => {
            lemma_simple(*u.operand, vals);
        },
        Expr::Binary(b) => {
            lemma_simple(*b.left, vals);
            lemma_simple(*b.right, vals);
        },
        Expr::Cast(k) => {
            lemma_simple(*k.expr, vals);
        },
        _ => {},
    }
}

/// The value is in the register, and the variables are left alone.
pub open spec fn gives(c: Cpu, d: Cpu, r: Seq<char>, v: int) -> bool {
    &&& same_store(c, d)
    &&& d.regs.contains_key(r)
    &&& d.regs[r] == v
    &&& d.at is None
}

/// `mov target, rax`, unless it is there.
proof fn lemma_mov_rax(from: Seq<char>, out: Seq<char>, target: Seq<char>, c0: Cpu, c: Cpu) -> (d: Cpu)
    requires
        leads(from, out, c0, c),
        c.at is None ==> c.regs.contains_key("rax"@),
        free_register(target),
    ensures
        leads(from, mov_rax(out, target), c0, d),
        c.at is None ==> gives(c, d, target, c.regs["rax"@]),
        c.at is Some ==> d == c,
{
    reveal(mov_rax);
    reveal(ins2);
    lemma_operations();
    lemma_count_name();
    if target != "rax"@ {
        lemma_set(c, target, c.regs["rax"@]);
        lemma_line(from, out, c0, c, Ins::Two("mov"@, target, "rax"@))
    } else {
        c
    }
}

/// The text of a division.
proof fn lemma_division_text(o: Seq<char>)
    ensures
        o + "    cqo\n    idiv rcx\n"@ == o + ins_text(Ins::Extend) + ins_text(
            Ins::One("idiv"@, "rcx"@),
        ),
        o + "    cqo\n    idiv rcx\n    mov rax, rdx\n"@ == o + ins_text(Ins::Extend) + ins_text(
            Ins::One("idiv"@, "rcx"@),
        ) + ins_text(Ins::Two("mov"@, "rax"@, "rdx"@)),
{
    reveal_strlit("    cqo\n    idiv rcx\n");
    reveal_strlit("    cqo\n    idiv rcx\n    mov rax, rdx\n");
    reveal_strlit("    cqo\n");
    reveal_strlit("    ");
    reveal_strlit("idiv");
    reveal_strlit("rcx");
    reveal_strlit("mov");
    reveal_strlit("rax");
    reveal_strlit("rdx");
    reveal_strlit(" ");
    reveal_strlit(", ");
    reveal_strlit("\n");
    let a = ins_text(Ins::Extend);
    let b = ins_text(Ins::One("idiv"@, "rcx"@));
    let m = ins_text(Ins::Two("mov"@, "rax"@, "rdx"@));
    assert("    cqo\n    idiv rcx\n"@ =~= a + b);
    assert("    cqo\n    idiv rcx\n    mov rax, rdx\n"@ =~= a + b + m);
    assert(o + (a + b) =~= o + a + b);
    assert(o + (a + b + m) =~= o + a + b + m);
}

/// The text of a truth value.
proof fn lemma_set_text(o: Seq<char>, k: Seq<char>)
    ensures
        set_rax(o, k) == o + ins_text(Ins::Flag(k)) + ins_text(Ins::Widen),
{
    reveal(set_rax);
    reveal_strlit(" al\n    movzx rax, al\n");
    reveal_strlit(" al\n");
    reveal_strlit("    movzx rax, al\n");
    assert(" al\n    movzx rax, al\n"@ =~= " al\n"@ + "    movzx rax, al\n"@);
    assert(set_rax(o, k) =~= o + ins_text(Ins::Flag(k)) + ins_text(Ins::Widen));
}

/// Fixed lines.
pub(crate) proof fn lemma_fixed_text()
    ensures
        "    push rax\n"@ == ins_text(Ins::One("push"@, "rax"@)),
        "    pop rax\n"@ == ins_text(Ins::One("pop"@, "rax"@)),
        "    cmp rax, rcx\n"@ == ins_text(Ins::Two("cmp"@, "rax"@, "rcx"@)),
        "    shl rax, cl\n"@ == ins_text(Ins::Two("shl"@, "rax"@, "cl"@)),
        "    sar rax, cl\n"@ == ins_text(Ins::Two("sar"@, "rax"@, "cl"@)),
        "    cmp rax, 0\n"@ == ins_text(Ins::Imm("cmp"@, "rax"@, 0)),
        "    mov rax, 0\n"@ == ins_text(Ins::Imm("mov"@, "rax"@, 0)),
{
    reveal_strlit("    push rax\n");
    reveal_strlit("    pop rax\n");
    reveal_strlit("    cmp rax, rcx\n");
    reveal_strlit("    shl rax, cl\n");
    reveal_strlit("    sar rax, cl\n");
    reveal_strlit("    cmp rax, 0\n");
    reveal_strlit("    mov rax, 0\n");
    reveal_strlit("    ");
    reveal_strlit("push");
    reveal_strlit("pop");
    reveal_strlit("cmp");
    reveal_strlit("shl");
    reveal_strlit("sar");
    reveal_strlit("mov");
    reveal_strlit("rax");
    reveal_strlit("rcx");
    reveal_strlit("cl");
    reveal_strlit("0");
    reveal_strlit(" ");
    reveal_strlit(", ");
    reveal_strlit("\n");
    reveal(int_dec);
    reveal(dec);
    assert(int_dec(0) =~= "0"@);
    assert("    push rax\n"@ =~= ins_text(Ins::One("push"@, "rax"@)));
    assert("    pop rax\n"@ =~= ins_text(Ins::One("pop"@, "rax"@)));
    assert("    cmp rax, rcx\n"@ =~= ins_text(Ins::Two("cmp"@, "rax"@, "rcx"@)));
    assert("    shl rax, cl\n"@ =~= ins_text(Ins::Two("shl"@, "rax"@, "cl"@)));
    assert("    sar rax, cl\n"@ =~= ins_text(Ins::Two("sar"@, "rax"@, "cl"@)));
    assert("    cmp rax, 0\n"@ =~= ins_text(Ins::Imm("cmp"@, "rax"@, 0)));
    assert("    mov rax, 0\n"@ =~= ins_text(Ins::Imm("mov"@, "rax"@, 0)));
}

/// The division of `rax` by `rcx`.
proof fn lemma_division(from: Seq<char>, out: Seq<char>, c0: Cpu, c: Cpu, rest: bool) -> (d: Cpu)
    requires
        leads(from, out, c0, c),
        c.at is None ==> c.regs.contains_key("rax"@) && c.regs.contains_key("rcx"@)
            && c.regs["rcx"@] != 0 && fits(truncated(c.regs["rax"@], c.regs["rcx"@]), 64),
    ensures
        leads(
            from,
            if rest {
                out + "    cqo\n    idiv rcx\n    mov rax, rdx\n"@
            } else {
                out + "    cqo\n    idiv rcx\n"@
            },
            c0,
            d,
        ),
        c.at is Some ==> d == c,
        c.at is None ==> gives(
            c,
            d,
            "rax"@,
            if rest {
                left_behind(c.regs["rax"@], c.regs["rcx"@])
            } else {
                truncated(c.regs["rax"@], c.regs["rcx"@])
            },
        ),
{
    lemma_division_text(out);
    lemma_registers();
    lemma_pool();
    lemma_single();
    lemma_operations();
    lemma_count_name();
    let d1 = lemma_line(from, out, c0, c, Ins::Extend);
    let o1 = out + ins_text(Ins::Extend);
    let d2 = lemma_line(from, o1, c0, d1, Ins::One("idiv"@, "rcx"@));
    let o2 = o1 + ins_text(Ins::One("idiv"@, "rcx"@));
    if rest {
        lemma_line(from, o2, c0, d2, Ins::Two("mov"@, "rax"@, "rdx"@))
    } else {
        d2
    }
}

/// A truth value in `rax` behind a comparison.
proof fn lemma_set_rax(from: Seq<char>, out: Seq<char>, op: BinaryOp, c0: Cpu, c: Cpu) -> (d: Cpu)
    requires
        leads(from, out, c0, c),
        cond_of(op) is Some,
    ensures
        leads(from, set_rax(out, cond_of(op)->Some_0), c0, d),
        compares(op, c.compared.0, c.compared.1) is Some,
        c.at is Some ==> d == c,
        c.at is None ==> gives(c, d, "rax"@, truth(compares(op, c.compared.0, c.compared.1)->Some_0)),
{
    reveal(cond_of);
    lemma_conditions();
    lemma_registers();
    lemma_pool();
    let k = cond_of(op)->Some_0;
    lemma_set_text(out, k);
    let d1 = lemma_line(from, out, c0, c, Ins::Flag(k));
    lemma_line(from, out + ins_text(Ins::Flag(k)), c0, d1, Ins::Widen)
}

/// An operation of `rax` with a constant.
proof fn lemma_imm_op(from: Seq<char>, out: Seq<char>, op: BinaryOp, v: int, c0: Cpu, c: Cpu) -> (d: Cpu)
    requires
        leads(from, out, c0, c),
        c.at is None ==> c.regs.contains_key("rax"@) && value(op, c.regs["rax"@], v, 64) is Some,
    ensures
        leads(from, imm_op(out, op, v), c0, d),
        c.at is Some ==> d == c,
        c.at is None ==> gives(c, d, "rax"@, value(op, c.regs["rax"@], v, 64)->Some_0),
{
    reveal(imm_op);
    reveal(ins1n);
    lemma_operations();
    lemma_registers();
    lemma_free();
    let l = c.regs["rax"@];
    match op {
        BinaryOp::Div | BinaryOp::Mod => {
            let i = Ins::Imm("mov"@, "rcx"@, v);
            let d1 = lemma_line(from, out, c0, c, i);
            lemma_set(c, "rcx"@, v);
            lemma_division(from, out + ins_text(i), c0, d1, op == BinaryOp::Mod)
        },
        BinaryOp::Shl => {
            lemma_line(from, out, c0, c, Ins::Imm("shl"@, "rax"@, v))
        },
        BinaryOp::Shr => {
            lemma_line(from, out, c0, c, Ins::Imm("sar"@, "rax"@, v))
        },
        _ => {
            reveal(cond_of);
            reveal(rax_op);
            match cond_of(op) {
                Some(k) => {
                    let i = Ins::Imm("cmp"@, "rax"@, v);
                    let d1 = lemma_line(from, out, c0, c, i);
                    lemma_set_rax(from, out + ins_text(i), op, c0, d1)
                },
                None => {
                    lemma_fixed_text();
                    match rax_op(op) {
                        Some(m) => lemma_line(from, out, c0, c, Ins::Imm(m, "rax"@, v)),
                        None => lemma_line(from, out, c0, c, Ins::Imm("mov"@, "rax"@, 0)),
                    }
                },
            }
        },
    }
}

/// An operation of `rax` with `rcx`.
proof fn lemma_general_op(from: Seq<char>, out: Seq<char>, op: BinaryOp, c0: Cpu, c: Cpu) -> (d: Cpu)
    requires
        leads(from, out, c0, c),
        c.at is None ==> c.regs.contains_key("rax"@) && c.regs.contains_key("rcx"@) && value(
            op,
            c.regs["rax"@],
            c.regs["rcx"@],
            64,
        ) is Some,
    ensures
        leads(from, general_op(out, op), c0, d),
        c.at is Some ==> d == c,
        c.at is None ==> gives(c, d, "rax"@, value(op, c.regs["rax"@], c.regs["rcx"@], 64)->Some_0),
{
    reveal(general_op);
    reveal(ins2);
    lemma_operations();
    lemma_registers();
    lemma_free();
    lemma_count_name();
    lemma_fixed_text();
    match op {
        BinaryOp::Div | BinaryOp::Mod => {
            lemma_division(from, out, c0, c, op == BinaryOp::Mod)
        },
        BinaryOp::Shl => {
            lemma_line(from, out, c0, c, Ins::Two("shl"@, "rax"@, "cl"@))
        },
        BinaryOp::Shr => {
            lemma_line(from, out, c0, c, Ins::Two("sar"@, "rax"@, "cl"@))
        },
        _ => {
            reveal(cond_of);
            reveal(rax_op);
            match cond_of(op) {
                Some(k) => {
                    let i = Ins::Two("cmp"@, "rax"@, "rcx"@);
                    let d1 = lemma_line(from, out, c0, c, i);
                    lemma_set_rax(from, out + ins_text(i), op, c0, d1)
                },
                None => {
                    match rax_op(op) {
                        Some(m) => lemma_line(from, out, c0, c, Ins::Two(m, "rax"@, "rcx"@)),
                        None => lemma_line(from, out, c0, c, Ins::Imm("mov"@, "rax"@, 0)),
                    }
                },
            }
        },
    }
}

/// A variable is loaded.
pub(crate) proof fn lemma_load_var(from: Seq<char>, out: Seq<char>, l: VarLoc, target: Seq<char>, c0: Cpu, c: Cpu) -> (d: Cpu)
    requires
        leads(from, out, c0, c),
        c.at is None ==> held(c, l) is Some,
        free_register(target),
    ensures
        leads(from, load_var_unless(out, l, target), c0, d),
        c.at is None ==> gives(c, d, target, held(c, l)->Some_0),
        c.at is Some ==> d == c,
{
    reveal(load_var_unless);
    reveal(load_var);
    reveal(load_slot);
    reveal(ins2);
    lemma_operations();
    lemma_count_name();
    lemma_set(c, target, held(c, l)->Some_0);
    match l {
        VarLoc::Reg(i) => {
            lemma_pool_range(i as int);
            assert(pool_reg(i as int) != target);
            lemma_line(from, out, c0, c, Ins::Two("mov"@, target, pool_reg(i as int)))
        },
        VarLoc::Stack(o) => {
            lemma_line(from, out, c0, c, Ins::Load(target, o as int))
        },
    }
}

/// The text of an expression computes its value, in the target register.
pub(crate) proof fn lemma_expr(env: Env, ctx: Ctx, st: Code, e: Expr, target: Seq<char>, vals: Map<Seq<char>, int>, from: Seq<char>, c0: Cpu, c: Cpu) -> (d: Cpu)
    requires
        leads(from, st.code, c0, c),
        simple(e),
        c.at is None ==> holds(c, st.vars, vals) && meaning(e, vals) is Some,
        free_register(target),
    ensures
        expr_code(env, ctx, st, e, target) == st.with(expr_code(env, ctx, st, e, target).code),
        leads(from, expr_code(env, ctx, st, e, target).code, c0, d),
        c.at is None ==> gives(c, d, target, meaning(e, vals)->Some_0),
        c.at is Some ==> d == c,
    decreases e,
{
    lemma_operations();
    lemma_single();
    match e {
        Expr::Integer(i) => {
            reveal(ins1n);
            lemma_set(c, target, i.value as int);
            lemma_line(from, st.code, c0, c, Ins::Imm("mov"@, target, i.value as int))
        },
        Expr::Bool(b) => {
            reveal(ins1n);
            lemma_set(c, target, truth(b.value));
            lemma_line(from, st.code, c0, c, Ins::Imm("mov"@, target, truth(b.value)))
        },
        Expr::Identifier(id) => {
            if st.vars.contains_key(id.name@) {
                lemma_load_var(from, st.code, st.vars[id.name@], target, c0, c)
            } else {
                reveal(ins1n);
                lemma_line(from, st.code, c0, c, Ins::Imm("mov"@, target, 0))
            }
        },
        Expr::Unary(u) => {
            let d1 = lemma_expr(env, ctx, st, *u.operand, target, vals, from, c0, c);
            let s1 = expr_code(env, ctx, st, *u.operand, target);
            let v = d1.regs[target];
            match u.operator {
                UnaryOp::Neg => {
                    reveal(ins1);
                    lemma_set(d1, target, wrapped(-v, 64));
                    lemma_line(from, s1.code, c0, d1, Ins::One("neg"@, target))
                },
                UnaryOp::BitNot => d1,
                _ => {
                    reveal(ins1n);
                    assert(0i64 ^ 1i64 == 1i64) by (bit_vector);
                    assert(1i64 ^ 1i64 == 0i64) by (bit_vector);
                    lemma_set(d1, target, 1 - v);
                    lemma_line(from, s1.code, c0, d1, Ins::Imm("xor"@, target, 1))
                },
            }
        },
        Expr::Binary(b) => {
            lemma_binary(env, ctx, st, b, target, vals, from, c0, c)
        },
        Expr::Cast(k) => {
            lemma_expr(env, ctx, st, *k.expr, target, vals, from, c0, c)
        },
        _ => c,
    }
}

/// The text of a binary operation computes its value.
proof fn lemma_binary(env: Env, ctx: Ctx, st: Code, b: BinaryExpr, target: Seq<char>, vals: Map<Seq<char>, int>, from: Seq<char>, c0: Cpu, c: Cpu) -> (d: Cpu)
    requires
        leads(from, st.code, c0, c),
        simple(*b.left),
        simple(*b.right),
        c.at is None ==> holds(c, st.vars, vals) && meaning(Expr::Binary(b), vals) is Some,
        free_register(target),
    ensures
        binary_code(env, ctx, st, b, target) == st.with(binary_code(env, ctx, st, b, target).code),
        leads(from, binary_code(env, ctx, st, b, target).code, c0, d),
        c.at is None ==> gives(c, d, target, meaning(Expr::Binary(b), vals)->Some_0),
        c.at is Some ==> d == c,
    decreases b,
{
    lemma_free();
    lemma_fixed_text();
    lemma_single();
    let op = b.operator;
    let d1 = lemma_expr(env, ctx, st, *b.left, "rax"@, vals, from, c0, c);
    let s1 = expr_code(env, ctx, st, *b.left, "rax"@);
    if *b.right is Integer {
        let v = b.right->Integer_0.value as int;
        let d2 = lemma_imm_op(from, s1.code, op, v, c0, d1);
        let d3 = lemma_mov_rax(from, imm_op(s1.code, op, v), target, c0, d2);
        if c.at is None {
            lemma_chain(c, d1, d2);
            lemma_chain(c, d2, d3);
        }
        d3
    } else {
        let push = Ins::One("push"@, "rax"@);
        let d2 = lemma_line(from, s1.code, c0, d1, push);
        let s2 = s1.with(s1.code + "    push rax\n"@);
        if c.at is None {
            lemma_holds(c, d1, st.vars, vals);
            assert forall|n: Seq<char>| #[trigger] vals.contains_key(n) implies st.vars.contains_key(
                n,
            ) && held(d2, st.vars[n]) == Some(vals[n]) by {
                assert(held(d1, st.vars[n]) == Some(vals[n]));
            }
        }
        let d3 = lemma_expr(env, ctx, s2, *b.right, "rcx"@, vals, from, c0, d2);
        let s3 = expr_code(env, ctx, s2, *b.right, "rcx"@);
        let pop = Ins::One("pop"@, "rax"@);
        let d4 = lemma_line(from, s3.code, c0, d3, pop);
        lemma_registers();
        if c.at is None {
            assert(d3.stack.drop_last() =~= d1.stack);
            lemma_set(d3, "rax"@, d1.regs["rax"@]);
            assert forall|i: int| 0 <= i < 4 implies same_register(c, d4, #[trigger] pool_reg(i)) by {
                assert(same_register(c, d1, pool_reg(i)));
                assert(same_register(d2, d3, pool_reg(i)));
            }
        }
        let d5 = lemma_general_op(from, s3.code + "    pop rax\n"@, op, c0, d4);
        let d6 = lemma_mov_rax(from, general_op(s3.code + "    pop rax\n"@, op), target, c0, d5);
        if c.at is None {
            lemma_chain(c, d4, d5);
            lemma_chain(c, d5, d6);
        }
        d6
    }
}

/// What leaves the variables alone twice leaves them alone.
pub(crate) proof fn lemma_chain(c: Cpu, d: Cpu, e: Cpu)
    requires
        same_store(c, d),
        same_store(d, e),
    ensures
        same_store(c, e),
{
    assert forall|i: int| 0 <= i < 4 implies same_register(c, e, #[trigger] pool_reg(i)) by {
        assert(same_register(c, d, pool_reg(i)));
        assert(same_register(d, e, pool_reg(i)));
    }
}

/// The text of an expression computes its value: run from a state in which the
/// variables hold their values, it leaves the value of the expression in the
/// target register, and the variables, the slots and the stack as they were.
pub proof fn law_expressions_compute_their_value(env: Env, ctx: Ctx, st: Code, e: Expr, target: Seq<char>, vals: Map<Seq<char>, int>, c: Cpu)
    requires
        c.at is None,
        holds(c, st.vars, vals),
        meaning(e, vals) is Some,
        free_register(target),
    ensures
        exists|d: Cpu| #[trigger]
            leads(st.code, expr_code(env, ctx, st, e, target).code, c, d) && gives(
                c,
                d,
                target,
                meaning(e, vals)->Some_0,
            ),
{
    lemma_leads_self(st.code, c);
    lemma_simple(e, vals);
    let d = lemma_expr(env, ctx, st, e, target, vals, st.code, c, c);
    assert(leads(st.code, expr_code(env, ctx, st, e, target).code, c, d));
}

// ---------------------------------------------------------------------------
// Conditions
// ---------------------------------------------------------------------------

/// Control has gone to `skip` where the condition does not hold, and goes on
/// where it does; the variables are left alone.
pub open spec fn tests(c: Cpu, d: Cpu, skip: Seq<char>, b: bool) -> bool {
    &&& same_store(c, d)
    &&& d.at == (if b {
        None
    } else {
        Some(skip)
    })
}

/// A comparison and its jump.
proof fn lemma_jump(from: Seq<char>, out: Seq<char>, op: BinaryOp, skip: Seq<char>, c0: Cpu, c: Cpu) -> (d: Cpu)
    requires
        leads(from, out, c0, c),
        compares(op, c.compared.0, c.compared.1) is Some,
    ensures
        leads(from, out + ins1(skip_jump(op), skip), c0, d),
        c.at is None ==> tests(c, d, skip, compares(op, c.compared.0, c.compared.1)->Some_0),
        c.at is Some ==> d == c,
{
    reveal(skip_jump);
    reveal(ins1);
    lemma_jumps();
    lemma_line(from, out, c0, c, Ins::Jump(skip_jump(op), skip))
}

/// A condition that is compared with zero.
pub(crate) proof fn lemma_plain_cond(env: Env, ctx: Ctx, st: Code, e: Expr, skip: Seq<char>, vals: Map<Seq<char>, int>, from: Seq<char>, c0: Cpu, c: Cpu) -> (d: Cpu)
    requires
        leads(from, st.code, c0, c),
        simple(e),
        c.at is None ==> holds(c, st.vars, vals) && meaning(e, vals) is Some,
    ensures
        plain_cond(env, ctx, st, e, skip) == st.with(plain_cond(env, ctx, st, e, skip).code),
        leads(from, plain_cond(env, ctx, st, e, skip).code, c0, d),
        c.at is None ==> tests(c, d, skip, meaning(e, vals)->Some_0 != 0),
        c.at is Some ==> d == c,
{
    lemma_free();
    lemma_fixed_text();
    lemma_operations();
    lemma_jumps();
    reveal(ins1);
    let d1 = lemma_expr(env, ctx, st, e, "rax"@, vals, from, c0, c);
    let s1 = expr_code(env, ctx, st, e, "rax"@);
    let i = Ins::Imm("cmp"@, "rax"@, 0);
    let d2 = lemma_line(from, s1.code, c0, d1, i);
    let d3 = lemma_line(from, s1.code + ins_text(i), c0, d2, Ins::Jump("je"@, skip));
    if c.at is None {
        lemma_chain(c, d1, d3);
    }
    d3
}

/// The text of a condition goes on where the condition holds, and to `skip` where
/// it does not.
pub(crate) proof fn lemma_cond(env: Env, ctx: Ctx, st: Code, e: Expr, skip: Seq<char>, vals: Map<Seq<char>, int>, from: Seq<char>, c0: Cpu, c: Cpu) -> (d: Cpu)
    requires
        leads(from, st.code, c0, c),
        simple(e),
        c.at is None ==> holds(c, st.vars, vals) && meaning(e, vals) is Some,
    ensures
        cond_code(env, ctx, st, e, skip) == st.with(cond_code(env, ctx, st, e, skip).code),
        leads(from, cond_code(env, ctx, st, e, skip).code, c0, d),
        c.at is None ==> tests(c, d, skip, meaning(e, vals)->Some_0 != 0),
        c.at is Some ==> d == c,
{
    match e {
        Expr::Binary(b) => {
            if cond_of(b.operator) is Some {
                lemma_compared(env, ctx, st, b, skip, vals, from, c0, c)
            } else {
                lemma_plain_cond(env, ctx, st, e, skip, vals, from, c0, c)
            }
        },
        _ => lemma_plain_cond(env, ctx, st, e, skip, vals, from, c0, c),
    }
}

/// The operations with a condition are the comparisons.
proof fn lemma_compares(op: BinaryOp)
    requires
        cond_of(op) is Some,
    ensures
        forall|l: int, r: int|
            (#[trigger] compares(op, l, r)) is Some && value(op, l, r, 64) == Some(
                truth(compares(op, l, r)->Some_0),
            ),
{
    reveal(cond_of);
}

/// The text of a condition that is a comparison.
#[verifier::rlimit(40)]
proof fn lemma_compared(env: Env, ctx: Ctx, st: Code, b: BinaryExpr, skip: Seq<char>, vals: Map<Seq<char>, int>, from: Seq<char>, c0: Cpu, c: Cpu) -> (d: Cpu)
    requires
        leads(from, st.code, c0, c),
        simple(*b.left),
        simple(*b.right),
        c.at is None ==> holds(c, st.vars, vals) && meaning(Expr::Binary(b), vals) is Some,
        cond_of(b.operator) is Some,
    ensures
        cond_code(env, ctx, st, Expr::Binary(b), skip) == st.with(
            cond_code(env, ctx, st, Expr::Binary(b), skip).code,
        ),
        leads(from, cond_code(env, ctx, st, Expr::Binary(b), skip).code, c0, d),
        c.at is None ==> tests(c, d, skip, meaning(Expr::Binary(b), vals)->Some_0 != 0),
        c.at is Some ==> d == c,
{
    lemma_free();
    lemma_fixed_text();
    lemma_operations();
    lemma_single();
    lemma_registers();
    lemma_count_name();
    reveal(ins1n);
    lemma_compares(b.operator);
    let d1 = lemma_expr(env, ctx, st, *b.left, "rax"@, vals, from, c0, c);
    let s1 = expr_code(env, ctx, st, *b.left, "rax"@);
    let op = b.operator;
    if *b.right is Integer {
        let i = Ins::Imm("cmp"@, "rax"@, b.right->Integer_0.value as int);
        let d2 = lemma_line(from, s1.code, c0, d1, i);
        let d3 = lemma_jump(from, s1.code + ins_text(i), op, skip, c0, d2);
        if c.at is None {
            lemma_chain(c, d1, d3);
        }
        d3
    } else if plain_arg(*b.right) {
        if c.at is None {
            lemma_holds(c, d1, st.vars, vals);
        }
        let d2 = lemma_plain(env, ctx, s1, *b.right, vals, from, c0, d1);
        let s2 = expr_code(env, ctx, s1, *b.right, "rcx"@);
        let i = Ins::Two("cmp"@, "rax"@, "rcx"@);
        let d3 = lemma_line(from, s2.code, c0, d2, i);
        let d4 = lemma_jump(from, s2.code + ins_text(i), op, skip, c0, d3);
        if c.at is None {
            lemma_chain(c, d1, d2);
            lemma_chain(c, d2, d4);
        }
        d4
    } else {
        let push = Ins::One("push"@, "rax"@);
        let d2 = lemma_line(from, s1.code, c0, d1, push);
        let s2 = s1.with(s1.code + "    push rax\n"@);
        if c.at is None {
            lemma_holds(c, d1, st.vars, vals);
            assert forall|n: Seq<char>| #[trigger] vals.contains_key(n) implies st.vars.contains_key(
                n,
            ) && held(d2, st.vars[n]) == Some(vals[n]) by {
                assert(held(d1, st.vars[n]) == Some(vals[n]));
            }
        }
        let d3 = lemma_expr(env, ctx, s2, *b.right, "rcx"@, vals, from, c0, d2);
        let s3 = expr_code(env, ctx, s2, *b.right, "rcx"@);
        let pop = Ins::One("pop"@, "rax"@);
        let d4 = lemma_line(from, s3.code, c0, d3, pop);
        if c.at is None {
            assert(d3.stack.drop_last() =~= d1.stack);
            lemma_set(d3, "rax"@, d1.regs["rax"@]);
            assert forall|i: int| 0 <= i < 4 implies same_register(c, d4, #[trigger] pool_reg(i)) by {
                assert(same_register(c, d1, pool_reg(i)));
                assert(same_register(d2, d3, pool_reg(i)));
            }
        }
        let i = Ins::Two("cmp"@, "rax"@, "rcx"@);
        let d5 = lemma_line(from, s3.code + ins_text(pop), c0, d4, i);
        let d6 = lemma_jump(from, s3.code + ins_text(pop) + ins_text(i), op, skip, c0, d5);
        if c.at is None {
            lemma_chain(c, d4, d6);
        }
        d6
    }
}

/// A plain operand goes to `rcx` and leaves `rax` alone.
proof fn lemma_plain(env: Env, ctx: Ctx, st: Code, e: Expr, vals: Map<Seq<char>, int>, from: Seq<char>, c0: Cpu, c: Cpu) -> (d: Cpu)
    requires
        leads(from, st.code, c0, c),
        simple(e),
        plain_arg(e),
        c.at is None ==> holds(c, st.vars, vals) && meaning(e, vals) is Some
            && c.regs.contains_key("rax"@),
    ensures
        expr_code(env, ctx, st, e, "rcx"@) == st.with(expr_code(env, ctx, st, e, "rcx"@).code),
        leads(from, expr_code(env, ctx, st, e, "rcx"@).code, c0, d),
        c.at is Some ==> d == c,
        c.at is None ==> gives(c, d, "rcx"@, meaning(e, vals)->Some_0) && d.regs.contains_key(
            "rax"@,
        ) && d.regs["rax"@] == c.regs["rax"@],
{
    lemma_operations();
    lemma_free();
    lemma_registers();
    lemma_count_name();
    let v = meaning(e, vals)->Some_0;
    lemma_set(c, "rcx"@, v);
    match e {
        Expr::Identifier(id) => {
            reveal(load_var_unless);
            reveal(load_var);
            reveal(load_slot);
            reveal(ins2);
            reveal(ins1n);
            if !st.vars.contains_key(id.name@) {
                lemma_line(from, st.code, c0, c, Ins::Imm("mov"@, "rcx"@, 0))
            } else {
                match st.vars[id.name@] {
                    VarLoc::Reg(i) => {
                        lemma_pool();
                        lemma_line(
                            from,
                            st.code,
                            c0,
                            c,
                            Ins::Two("mov"@, "rcx"@, pool_reg(i as int)),
                        )
                    },
                    VarLoc::Stack(o) => lemma_line(
                        from,
                        st.code,
                        c0,
                        c,
                        Ins::Load("rcx"@, o as int),
                    ),
                }
            }
        },
        Expr::Integer(i) => {
            reveal(ins1n);
            lemma_line(from, st.code, c0, c, Ins::Imm("mov"@, "rcx"@, i.value as int))
        },
        Expr::Bool(b) => {
            reveal(ins1n);
            lemma_line(from, st.code, c0, c, Ins::Imm("mov"@, "rcx"@, truth(b.value)))
        },
        _ => c,
    }
}

/// The text of a condition goes on to what follows it exactly where the condition
/// holds, and to the label `skip` exactly where it does not: for every comparison
/// of two expressions, the jump is taken where the comparison is false of their
/// values.
pub proof fn law_conditions_skip_what_does_not_hold(env: Env, ctx: Ctx, st: Code, e: Expr, skip: Seq<char>, vals: Map<Seq<char>, int>, c: Cpu)
    requires
        c.at is None,
        holds(c, st.vars, vals),
        meaning(e, vals) is Some,
    ensures
        exists|d: Cpu| #[trigger]
            leads(st.code, cond_code(env, ctx, st, e, skip).code, c, d) && tests(
                c,
                d,
                skip,
                meaning(e, vals)->Some_0 != 0,
            ),
{
    lemma_leads_self(st.code, c);
    lemma_simple(e, vals);
    let d = lemma_cond(env, ctx, st, e, skip, vals, st.code, c, c);
    assert(leads(st.code, cond_code(env, ctx, st, e, skip).code, c, d));
}

} // verus!
