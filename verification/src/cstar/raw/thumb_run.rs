//! What Thumb-2 code does.
//!
//! A core reads instructions from bytes and runs them. The laws say that the code
//! of expressions, conditions and statements computes what they mean.

use vstd::prelude::*;
use crate::ast::{Assignee, BinaryOp, Expr, IfStmt, ReturnStmt, Stmt, WhileStmt};
use crate::bytes::lemma_le_len;
use crate::cstar::raw::emitter::{
    all_patched, arm_end, Arms, cond_fw, elif_fw, expr_fw, Fw, if_fw, load_constant, next_temp,
    stmt_fw, stmts_fw, var_fw,
};
use crate::cstar::raw::thumb::{
    bits, branch_target, branch_to, half, half_at, halves, law_branches_reach_their_target,
    law_patched_branches_reach_their_target, law_wide_moves_keep_their_constant, lemma_half_at,
    lemma_halves_at, moved_constant, moved_register, patched, same_bit, skip_wide, wide_branch,
    wide_move, wide_target,
};

verus! {

/// The range of a register.
pub const WORD: u64 = 0x1_0000_0000;

/// The state of the core: where it reads, its registers, whether the last
/// comparison found its operands equal, and whether the function has returned.
pub struct Core {
    pub pc: int,
    pub regs: Map<int, int>,
    pub equal: bool,
    pub done: bool,
}

impl Core {
    /// The state behind an instruction of `n` bytes that writes a register.
    pub open spec fn put(self, r: int, v: int, n: int) -> Core {
        Core { pc: self.pc + n, regs: self.regs.insert(r, v), ..self }
    }

    /// The state at another place.
    pub open spec fn to(self, pc: int) -> Core {
        Core { pc, ..self }
    }
}

/// A signed number of eight bits.
pub open spec fn signed8(n: int) -> int {
    if n < 128 {
        n
    } else {
        n - 256
    }
}

/// What the instruction at the place of the core does; none where it has no
/// meaning.
#[verifier::opaque]
pub open spec fn step(b: Seq<u8>, s: Core) -> Option<Core> {
    let h = half_at(b, s.pc);
    if s.done || s.pc < 0 || s.pc + 2 > b.len() {
        None
    } else if h == 0x4770 {
        Some(Core { done: true, ..s })
    } else if h / 2048 == 4 {
        Some(s.put((h / 256) % 8, h % 256, 2))
    } else if h / 2048 == 5 {
        Some(Core { pc: s.pc + 2, equal: s.regs[(h / 256) % 8] == h % 256, ..s })
    } else if h / 256 == 0x46 {
        Some(s.put((h / 128) % 2 * 8 + h % 8, s.regs[(h / 8) % 16], 2))
    } else if h / 512 == 12 {
        Some(s.put(h % 8, (s.regs[(h / 8) % 8] + s.regs[(h / 64) % 8]) % WORD as int, 2))
    } else if h / 512 == 13 {
        Some(s.put(h % 8, (s.regs[(h / 8) % 8] - s.regs[(h / 64) % 8]) % WORD as int, 2))
    } else if h / 64 == 0x10D {
        Some(s.put(h % 8, (s.regs[h % 8] * s.regs[(h / 8) % 8]) % WORD as int, 2))
    } else if h / 256 == 0xD0 || h / 256 == 0xD1 {
        if s.equal == (h / 256 == 0xD0) {
            Some(s.to(s.pc + 4 + 2 * signed8(h % 256)))
        } else {
            Some(s.to(s.pc + 2))
        }
    } else if h / 2048 == 28 {
        Some(s.to(branch_target(h, s.pc)))
    } else if h / 2048 == 30 && s.pc + 4 <= b.len() {
        let lo = half_at(b, s.pc + 2);
        let r = moved_register(b, s.pc);
        if lo / 32768 == 1 && (lo / 4096) % 2 == 1 {
            Some(s.to(wide_target(b, s.pc)))
        } else if lo / 32768 == 0 && (h / 16) % 64 == 0x24 {
            Some(s.put(r, moved_constant(b, s.pc), 4))
        } else if lo / 32768 == 0 && (h / 16) % 64 == 0x2C {
            Some(s.put(r, s.regs[r] % 65536 + 65536 * moved_constant(b, s.pc), 4))
        } else {
            None
        }
    } else {
        None
    }
}

/// The state behind `n` instructions.
pub open spec fn steps(b: Seq<u8>, s: Core, n: nat) -> Option<Core>
    decreases n,
{
    if n == 0 {
        Some(s)
    } else {
        match steps(b, s, (n - 1) as nat) {
            Some(t) => step(b, t),
            None => None,
        }
    }
}

/// The code leads from one state to another.
pub open spec fn leads(b: Seq<u8>, s: Core, t: Core) -> bool {
    exists|n: nat| #[trigger] steps(b, s, n) == Some(t)
}

/// One more instruction.
proof fn lemma_step(b: Seq<u8>, s: Core, t: Core) -> (u: Core)
    requires
        leads(b, s, t),
        step(b, t) is Some,
    ensures
        leads(b, s, u),
        u == step(b, t)->Some_0,
{
    let n = choose|n: nat| #[trigger] steps(b, s, n) == Some(t);
    let u = step(b, t)->Some_0;
    assert(steps(b, s, n + 1) == Some(u));
    u
}

/// No instruction.
proof fn lemma_here(b: Seq<u8>, s: Core)
    ensures
        leads(b, s, s),
{
    assert(steps(b, s, 0) == Some(s));
}

/// The bytes from `from` up to `to` are the same.
pub open spec fn agree(b: Seq<u8>, c: Seq<u8>, from: int, to: int) -> bool {
    &&& 0 <= from
    &&& to <= b.len()
    &&& to <= c.len()
    &&& forall|i: int| from <= i < to ==> #[trigger] b[i] == c[i]
}

/// What agrees with the whole agrees with what it begins with.
proof fn lemma_part(b: Seq<u8>, c: Seq<u8>, d: Seq<u8>, from: int, mid: int, to: int)
    requires
        agree(b, d, from, to),
        agree(d, c, 0, mid),
        mid <= to,
    ensures
        agree(b, c, from, mid),
{
    assert forall|i: int| from <= i < mid implies #[trigger] b[i] == c[i] by {
        assert(b[i] == d[i]);
        assert(d[i] == c[i]);
    }
}

/// A 16-bit instruction behind code.
proof fn lemma_read(b: Seq<u8>, c: Seq<u8>, n: int)
    requires
        0 <= n < 65536,
        agree(b, c + half(n), c.len() as int, c.len() as int + 2),
    ensures
        half_at(b, c.len() as int) == n,
        (c + half(n)).len() == c.len() + 2,
        agree(c + half(n), c, 0, c.len() as int),
{
    lemma_half_at(n);
    let k = c.len() as int;
    let d = c + half(n);
    assert(b[k] == d[k] && b[k + 1] == d[k + 1]);
}

/// A 32-bit instruction behind code.
proof fn lemma_read_wide(b: Seq<u8>, c: Seq<u8>, w: Seq<u8>)
    requires
        w.len() == 4,
        agree(b, c + w, c.len() as int, c.len() as int + 4),
    ensures
        half_at(b, c.len() as int) == half_at(w, 0),
        half_at(b, c.len() as int + 2) == half_at(w, 2),
{
    let k = c.len() as int;
    let d = c + w;
    assert(b[k] == d[k] && b[k + 1] == d[k + 1] && b[k + 2] == d[k + 2] && b[k + 3] == d[k + 3]);
}

// ---------------------------------------------------------------------------
// What expressions mean
// ---------------------------------------------------------------------------

/// The value of an expression of integers and variables in words of 32 bits; none
/// for other expressions.
pub open spec fn meaning(e: Expr, vals: Map<Seq<char>, int>) -> Option<int>
    decreases e,
{
    match e {
        Expr::Integer(i) => Some(i.value as int % WORD as int),
        Expr::Identifier(id) => if vals.contains_key(id.name@) {
            Some(vals[id.name@])
        } else {
            None
        },
        Expr::Binary(b) => match (meaning(*b.left, vals), meaning(*b.right, vals)) {
            (Some(l), Some(r)) => match b.operator {
                BinaryOp::Add => Some((l + r) % WORD as int),
                BinaryOp::Sub => Some((l - r) % WORD as int),
                BinaryOp::Mul => Some((l * r) % WORD as int),
                _ => None,
            },
            _ => None,
        },
        Expr::Cast(c) => meaning(*c.expr, vals),
        _ => None,
    }
}

/// The registers that the code of an expression with its value in `rd` writes:
/// `rd`, and those behind it for the right sides of operations.
pub open spec fn written(e: Expr, rd: u8) -> Set<int>
    decreases e,
{
    match e {
        Expr::Binary(b) => written(*b.left, rd) + written(*b.right, next_temp(rd)),
        Expr::Cast(c) => written(*c.expr, rd),
        _ => Set::empty().insert(rd as int),
    }
}

/// The expression reads the variable.
pub open spec fn reads(e: Expr, n: Seq<char>) -> bool
    decreases e,
{
    match e {
        Expr::Identifier(id) => id.name@ == n,
        Expr::Binary(b) => reads(*b.left, n) || reads(*b.right, n),
        Expr::Cast(c) => reads(*c.expr, n),
        _ => false,
    }
}

/// No operation in the expression overwrites what it still needs: the right side
/// leaves the register of the left one alone, and the left side the variables
/// that the right one reads.
pub open spec fn undisturbed(e: Expr, rd: u8, regs: Map<Seq<char>, u8>) -> bool
    decreases e,
{
    match e {
        Expr::Binary(b) => {
            &&& undisturbed(*b.left, rd, regs)
            &&& undisturbed(*b.right, next_temp(rd), regs)
            &&& !written(*b.right, next_temp(rd)).contains(rd as int)
            &&& forall|n: Seq<char>| #[trigger]
                reads(*b.right, n) ==> !written(*b.left, rd).contains(regs[n] as int)
        },
        Expr::Cast(c) => undisturbed(*c.expr, rd, regs),
        _ => true,
    }
}

/// The variables that the expression reads are in their registers.
pub open spec fn at_hand(e: Expr, regs: Map<Seq<char>, u8>, vals: Map<Seq<char>, int>, s: Core) -> bool {
    forall|n: Seq<char>| #[trigger]
        reads(e, n) ==> regs.contains_key(n) && regs[n] < 16 && s.regs[regs[n] as int] == vals[n]
}

/// The state at the end of an expression.
pub open spec fn gives(s: Core, t: Core, pc: int, rd: u8, v: int, w: Set<int>) -> bool {
    &&& t.pc == pc
    &&& t.done == s.done
    &&& t.regs[rd as int] == v
    &&& forall|r: int| !w.contains(r) ==> #[trigger] t.regs[r] == s.regs[r]
}

// ---------------------------------------------------------------------------
// Expressions
// ---------------------------------------------------------------------------

/// The code of an expression is added to what is there.
proof fn lemma_grows(code: Seq<u8>, regs: Map<Seq<char>, u8>, e: Expr, rd: u8)
    ensures
        code.len() <= expr_fw(code, regs, e, rd).len(),
        agree(expr_fw(code, regs, e, rd), code, 0, code.len() as int),
    decreases e,
{
    let t = next_temp(rd);
    match e {
        Expr::Binary(b) => {
            let c1 = expr_fw(code, regs, *b.left, rd);
            let c2 = expr_fw(c1, regs, *b.right, t);
            lemma_grows(code, regs, *b.left, rd);
            lemma_grows(c1, regs, *b.right, t);
            assert forall|i: int| 0 <= i < code.len() implies #[trigger] c2[i] == code[i] by {
                assert(c2[i] == c1[i]);
                assert(c1[i] == code[i]);
            }
        },
        Expr::Cast(c) => {
            lemma_grows(code, regs, *c.expr, rd);
        },
        _ => {},
    }
}

/// A move of a wide constant.
proof fn lemma_wide(b: Seq<u8>, c: Seq<u8>, op: int, rd: u8, imm: int, s0: Core, s: Core) -> (t: Core)
    requires
        leads(b, s0, s),
        op == 0xF240 || op == 0xF2C0,
        rd < 8,
        0 <= imm < 65536,
        s.pc == c.len(),
        !s.done,
        agree(b, c + wide_move(op, rd as int, imm), c.len() as int, c.len() as int + 4),
    ensures
        leads(b, s0, t),
        wide_move(op, rd as int, imm).len() == 4,
        t == s.put(
            rd as int,
            if op == 0xF240 {
                imm
            } else {
                s.regs[rd as int] % 65536 + 65536 * imm
            },
            4,
        ),
{
    let w = wide_move(op, rd as int, imm);
    law_wide_moves_keep_their_constant(op, rd as int, imm);
    lemma_read_wide(b, c, w);
    let hi = op + (imm / 2048) % 2 * 1024 + imm / 4096;
    let lo = (imm / 256) % 8 * 4096 + rd % 16 * 256 + imm % 256;
    lemma_halves_at(hi, lo);
    lemma_wide_class(op, (imm / 2048) % 2, imm / 4096);
    assert(lo / 32768 == 0);
    reveal(step);
    lemma_step(b, s0, s)
}

/// The upper half of a move of a wide constant is not that of another
/// instruction.
proof fn lemma_wide_class(op: int, i: int, k: int)
    requires
        op == 0xF240 || op == 0xF2C0,
        0 <= i < 2,
        0 <= k < 16,
    ensures
        ({
            let h = op + i * 1024 + k;
            &&& h / 2048 == 30
            &&& (h / 16) % 64 == (if op == 0xF240 {
                0x24int
            } else {
                0x2C
            })
            &&& h / 256 >= 0xF2
            &&& h / 512 >= 0x79
            &&& h / 64 >= 0x3C8
        }),
{
}

/// A constant in a register.
proof fn lemma_constant(b: Seq<u8>, code: Seq<u8>, v: i64, rd: u8, s0: Core, s: Core) -> (t: Core)
    requires
        leads(b, s0, s),
        rd < 8,
        s.pc == code.len(),
        !s.done,
        agree(b, load_constant(code, v, rd), code.len() as int, load_constant(code, v, rd).len() as int),
    ensures
        leads(b, s0, t),
        gives(
            s,
            t,
            load_constant(code, v, rd).len() as int,
            rd,
            v as int % WORD as int,
            Set::empty().insert(rd as int),
        ),
{
    if 0 <= v <= 255 {
        lemma_half_at(0x2000 + rd % 8 * 256 + v);
        lemma_read(b, code, 0x2000 + rd % 8 * 256 + v);
        lemma_movs(b, s, rd as int, v as int);
        lemma_step(b, s0, s)
    } else if 0 <= v <= 65535 {
        law_wide_moves_keep_their_constant(0xF240, rd as int, v as int);
        lemma_wide(b, code, 0xF240, rd, v as int, s0, s)
    } else {
        lemma_large(b, code, v as int % 0x1_0000_0000, rd, s0, s)
    }
}

/// A constant of up to 32 bits in a register.
#[verifier::rlimit(40)]
proof fn lemma_large(b: Seq<u8>, code: Seq<u8>, n: int, rd: u8, s0: Core, s: Core) -> (t: Core)
    requires
        leads(b, s0, s),
        rd < 8,
        0 <= n < 0x1_0000_0000,
        s.pc == code.len(),
        !s.done,
        ({
            let low = code + wide_move(0xF240, rd as int, n % 65536);
            let all = if n / 65536 != 0 {
                low + wide_move(0xF2C0, rd as int, n / 65536)
            } else {
                low
            };
            agree(b, all, code.len() as int, all.len() as int)
        }),
    ensures
        leads(b, s0, t),
        ({
            let low = code + wide_move(0xF240, rd as int, n % 65536);
            let all = if n / 65536 != 0 {
                low + wide_move(0xF2C0, rd as int, n / 65536)
            } else {
                low
            };
            gives(s, t, all.len() as int, rd, n, Set::empty().insert(rd as int))
        }),
{
    let k = code.len() as int;
    let w = wide_move(0xF240, rd as int, n % 65536);
    law_wide_moves_keep_their_constant(0xF240, rd as int, n % 65536);
    let low = code + w;
    assert(n == n % 65536 + 65536 * (n / 65536));
    assert((n % 65536) % 65536 == n % 65536);
    if n / 65536 != 0 {
        law_wide_moves_keep_their_constant(0xF2C0, rd as int, n / 65536);
        let all = low + wide_move(0xF2C0, rd as int, n / 65536);
        assert(agree(all, low, 0, low.len() as int));
        lemma_part(b, low, all, k, k + 4, k + 8);
        let t1 = lemma_wide(b, code, 0xF240, rd, n % 65536, s0, s);
        assert(agree(b, all, low.len() as int, low.len() as int + 4));
        lemma_wide(b, low, 0xF2C0, rd, n / 65536, s0, t1)
    } else {
        lemma_wide(b, code, 0xF240, rd, n % 65536, s0, s)
    }
}

/// The fields of `MOVS` and `CMP`.
proof fn lemma_small(class: int, r: int, v: int)
    requires
        class == 4 || class == 5,
        0 <= r < 8,
        0 <= v < 256,
    ensures
        ({
            let h = class * 2048 + r * 256 + v;
            &&& h / 2048 == class
            &&& (h / 256) % 8 == r
            &&& h % 256 == v
        }),
{
}

/// The fields of `MOV`.
proof fn lemma_move_fields(rd: int, rm: int)
    requires
        0 <= rd < 8,
        0 <= rm < 16,
    ensures
        ({
            let h = 0x4600 + rm * 8 + rd;
            &&& h / 256 == 0x46
            &&& (h / 128) % 2 == 0
            &&& (h / 8) % 16 == rm
            &&& h % 8 == rd
            &&& h / 2048 == 8
            &&& h != 0x4770
        }),
{
}

/// The fields of `ADD` and `SUB`.
proof fn lemma_sum_fields(class: int, rm: int, rn: int, rd: int)
    requires
        class == 12 || class == 13,
        0 <= rm < 8,
        0 <= rn < 8,
        0 <= rd < 8,
    ensures
        ({
            let h = class * 512 + rm * 64 + rn * 8 + rd;
            &&& h / 512 == class
            &&& (h / 64) % 8 == rm
            &&& (h / 8) % 8 == rn
            &&& h % 8 == rd
            &&& h / 2048 == 3
            &&& h / 256 < 0x46
            &&& h != 0x4770
        }),
{
}

/// The fields of `MULS`.
proof fn lemma_product_fields(rn: int, rd: int)
    requires
        0 <= rn < 8,
        0 <= rd < 8,
    ensures
        ({
            let h = 0x4340 + rn * 8 + rd;
            &&& h / 64 == 0x10D
            &&& (h / 8) % 8 == rn
            &&& h % 8 == rd
            &&& h / 2048 == 8
            &&& h / 512 == 33
            &&& h / 256 == 0x43
            &&& h != 0x4770
        }),
{
}

/// What `MOVS` does.
proof fn lemma_movs(b: Seq<u8>, s: Core, rd: int, v: int)
    requires
        !s.done,
        0 <= s.pc,
        s.pc + 2 <= b.len(),
        0 <= rd < 8,
        0 <= v < 256,
        half_at(b, s.pc) == 0x2000 + rd * 256 + v,
    ensures
        step(b, s) == Some(s.put(rd, v, 2)),
{
    reveal(step);
    lemma_small(4, rd, v);
}

/// What `MOV` does.
proof fn lemma_mov(b: Seq<u8>, s: Core, rd: int, rm: int)
    requires
        !s.done,
        0 <= s.pc,
        s.pc + 2 <= b.len(),
        0 <= rd < 8,
        0 <= rm < 16,
        half_at(b, s.pc) == 0x4600 + rm * 8 + rd,
    ensures
        step(b, s) == Some(s.put(rd, s.regs[rm], 2)),
{
    reveal(step);
    lemma_move_fields(rd, rm);
}

/// What `ADD` and `SUB` of a register and another one do.
proof fn lemma_sum(b: Seq<u8>, s: Core, class: int, rm: int, rd: int)
    requires
        !s.done,
        0 <= s.pc,
        s.pc + 2 <= b.len(),
        class == 12 || class == 13,
        0 <= rd < 8,
        0 <= rm < 8,
        half_at(b, s.pc) == class * 512 + rm * 64 + rd * 8 + rd,
    ensures
        step(b, s) == Some(
            s.put(
                rd,
                (if class == 12 {
                    s.regs[rd] + s.regs[rm]
                } else {
                    s.regs[rd] - s.regs[rm]
                }) % WORD as int,
                2,
            ),
        ),
{
    reveal(step);
    lemma_sum_fields(class, rm, rd, rd);
}

/// What `MULS` does.
proof fn lemma_product(b: Seq<u8>, s: Core, rn: int, rd: int)
    requires
        !s.done,
        0 <= s.pc,
        s.pc + 2 <= b.len(),
        0 <= rd < 8,
        0 <= rn < 8,
        half_at(b, s.pc) == 0x4340 + rn * 8 + rd,
    ensures
        step(b, s) == Some(s.put(rd, (s.regs[rd] * s.regs[rn]) % WORD as int, 2)),
{
    reveal(step);
    lemma_product_fields(rn, rd);
}

/// The code of an expression computes its value.
#[verifier::rlimit(30)]
proof fn lemma_expr(b: Seq<u8>, code: Seq<u8>, regs: Map<Seq<char>, u8>, e: Expr, rd: u8, vals: Map<Seq<char>, int>, s0: Core, s: Core) -> (t: Core)
    requires
        leads(b, s0, s),
        rd < 8,
        s.pc == code.len(),
        !s.done,
        agree(b, expr_fw(code, regs, e, rd), code.len() as int, expr_fw(code, regs, e, rd).len() as int),
        meaning(e, vals) is Some,
        at_hand(e, regs, vals, s),
        undisturbed(e, rd, regs),
    ensures
        leads(b, s0, t),
        gives(
            s,
            t,
            expr_fw(code, regs, e, rd).len() as int,
            rd,
            meaning(e, vals)->Some_0,
            written(e, rd),
        ),
    decreases e,
{
    let k = code.len() as int;
    match e {
        Expr::Integer(i) => lemma_constant(b, code, i.value, rd, s0, s),
        Expr::Identifier(id) => {
            assert(reads(e, id.name@));
            let rm = regs[id.name@];
            if rm != rd {
                let n = 0x4600 + (rd / 8) % 2 * 128 + rm % 16 * 8 + rd % 8;
                lemma_half_at(n);
                lemma_read(b, code, n);
                lemma_mov(b, s, rd as int, rm as int);
                lemma_step(b, s0, s)
            } else {
                s
            }
        },
        Expr::Binary(x) => {
            let r = next_temp(rd);
            let c1 = expr_fw(code, regs, *x.left, rd);
            let c2 = expr_fw(c1, regs, *x.right, r);
            let n = match x.operator {
                BinaryOp::Add => 0x1800 + r % 8 * 64 + rd % 8 * 8 + rd % 8,
                BinaryOp::Sub => 0x1A00 + r % 8 * 64 + rd % 8 * 8 + rd % 8,
                _ => 0x4340 + r % 8 * 8 + rd % 8,
            };
            let c3 = c2 + half(n);
            assert(expr_fw(code, regs, e, rd) == c3);
            lemma_half_at(n);
            lemma_grows(code, regs, *x.left, rd);
            lemma_grows(c1, regs, *x.right, r);
            assert(agree(c3, c2, 0, c2.len() as int));
            lemma_part(b, c2, c3, k, c2.len() as int, c3.len() as int);
            lemma_part(b, c1, c2, k, c1.len() as int, c2.len() as int);
            assert forall|m: Seq<char>| #[trigger] reads(*x.left, m) implies regs.contains_key(m)
                && regs[m] < 16 && s.regs[regs[m] as int] == vals[m] by {
                assert(reads(e, m));
            }
            let t1 = lemma_expr(b, code, regs, *x.left, rd, vals, s0, s);
            assert forall|m: Seq<char>| #[trigger] reads(*x.right, m) implies regs.contains_key(m)
                && regs[m] < 16 && t1.regs[regs[m] as int] == vals[m] by {
                assert(reads(e, m));
                assert(!written(*x.left, rd).contains(regs[m] as int));
                assert(t1.regs[regs[m] as int] == s.regs[regs[m] as int]);
            }
            let t2 = lemma_expr(b, c1, regs, *x.right, r, vals, s0, t1);
            assert(t2.regs[rd as int] == t1.regs[rd as int]);
            lemma_read(b, c2, n);
            match x.operator {
                BinaryOp::Add => lemma_sum(b, t2, 12, r as int, rd as int),
                BinaryOp::Sub => lemma_sum(b, t2, 13, r as int, rd as int),
                _ => lemma_product(b, t2, r as int, rd as int),
            }
            let t3 = lemma_step(b, s0, t2);
            lemma_writes(*x.left, rd);
            assert forall|q: int| !written(e, rd).contains(q) implies #[trigger] t3.regs[q]
                == s.regs[q] by {
                assert(t2.regs[q] == t1.regs[q]);
                assert(t1.regs[q] == s.regs[q]);
            }
            t3
        },
        Expr::Cast(c) => {
            assert forall|m: Seq<char>| #[trigger] reads(*c.expr, m) implies regs.contains_key(m)
                && regs[m] < 16 && s.regs[regs[m] as int] == vals[m] by {
                assert(reads(e, m));
            }
            lemma_expr(b, code, regs, *c.expr, rd, vals, s0, s)
        },
        _ => s,
    }
}

/// The register of the value is one of those that are written.
proof fn lemma_writes(e: Expr, rd: u8)
    ensures
        written(e, rd).contains(rd as int),
    decreases e,
{
    match e {
        Expr::Binary(b) => {
            lemma_writes(*b.left, rd);
        },
        Expr::Cast(c) => {
            lemma_writes(*c.expr, rd);
        },
        _ => {},
    }
}

/// The code of an expression computes its value: wherever the code stands in a
/// program, the core that reaches it leaves behind it with the value of the
/// expression in the register, sums, differences and products in 32 bits, and
/// with the other registers as they were but for those that intermediate results
/// are kept in.
pub proof fn law_expressions_compute_their_value(b: Seq<u8>, code: Seq<u8>, regs: Map<Seq<char>, u8>, e: Expr, rd: u8, vals: Map<Seq<char>, int>, s: Core)
    requires
        rd < 8,
        s.pc == code.len(),
        !s.done,
        agree(b, expr_fw(code, regs, e, rd), code.len() as int, expr_fw(code, regs, e, rd).len() as int),
        meaning(e, vals) is Some,
        at_hand(e, regs, vals, s),
        undisturbed(e, rd, regs),
    ensures
        exists|t: Core| #[trigger]
            leads(b, s, t) && gives(
                s,
                t,
                expr_fw(code, regs, e, rd).len() as int,
                rd,
                meaning(e, vals)->Some_0,
                written(e, rd),
            ),
{
    lemma_here(b, s);
    let t = lemma_expr(b, code, regs, e, rd, vals, s, s);
    assert(leads(b, s, t));
}

/// The depth of the right sides of an expression.
pub open spec fn depth(e: Expr) -> nat
    decreases e,
{
    match e {
        Expr::Binary(b) => if depth(*b.left) > depth(*b.right) + 1 {
            depth(*b.left)
        } else {
            depth(*b.right) + 1
        },
        Expr::Cast(c) => depth(*c.expr),
        _ => 0,
    }
}

/// The registers of intermediate results are those from `rd` on.
proof fn lemma_span(e: Expr, rd: u8, r: int)
    requires
        rd + depth(e) < 8,
        written(e, rd).contains(r),
    ensures
        rd <= r <= rd + depth(e),
    decreases e,
{
    match e {
        Expr::Binary(b) => {
            if written(*b.left, rd).contains(r) {
                lemma_span(*b.left, rd, r);
            } else {
                lemma_span(*b.right, next_temp(rd), r);
            }
        },
        Expr::Cast(c) => {
            lemma_span(*c.expr, rd, r);
        },
        _ => {},
    }
}

/// Where the registers from `rd` on are enough for the depth of an expression and
/// no variable that it reads is in one of them, nothing is disturbed. So it is for
/// conditions and returned values of a depth up to three, which begin at `r0`,
/// since variables are in `r4` to `r7`.
pub proof fn law_variables_outlive_shallow_expressions(e: Expr, rd: u8, regs: Map<Seq<char>, u8>)
    requires
        rd + depth(e) < 8,
        forall|n: Seq<char>| #[trigger]
            reads(e, n) ==> regs[n] < rd || regs[n] > rd + depth(e),
    ensures
        undisturbed(e, rd, regs),
        forall|r: int| #[trigger] written(e, rd).contains(r) ==> rd <= r <= rd + depth(e),
    decreases e,
{
    assert forall|r: int| #[trigger] written(e, rd).contains(r) implies rd <= r <= rd + depth(e) by {
        lemma_span(e, rd, r);
    }
    match e {
        Expr::Binary(b) => {
            let t = next_temp(rd);
            assert forall|n: Seq<char>| #[trigger] reads(*b.left, n) implies regs[n] < rd || regs[n]
                > rd + depth(*b.left) by {
                assert(reads(e, n));
            }
            assert forall|n: Seq<char>| #[trigger] reads(*b.right, n) implies regs[n] < t || regs[n]
                > t + depth(*b.right) by {
                assert(reads(e, n));
            }
            law_variables_outlive_shallow_expressions(*b.left, rd, regs);
            law_variables_outlive_shallow_expressions(*b.right, t, regs);
            assert forall|n: Seq<char>| #[trigger] reads(*b.right, n) implies !written(
                *b.left,
                rd,
            ).contains(regs[n] as int) by {
                assert(reads(e, n));
            }
        },
        Expr::Cast(c) => {
            assert forall|n: Seq<char>| #[trigger] reads(*c.expr, n) implies regs[n] < rd || regs[n]
                > rd + depth(*c.expr) by {
                assert(reads(e, n));
            }
            law_variables_outlive_shallow_expressions(*c.expr, rd, regs);
        },
        _ => {},
    }
}

// ---------------------------------------------------------------------------
// Branches
// ---------------------------------------------------------------------------

/// At position `p` stands a `B.W` that leads to `target`.
pub open spec fn wide_to(b: Seq<u8>, p: int, target: int) -> bool {
    &&& 0 <= p
    &&& p + 4 <= b.len()
    &&& half_at(b, p) / 2048 == 30
    &&& half_at(b, p + 2) / 32768 == 1
    &&& (half_at(b, p + 2) / 4096) % 2 == 1
    &&& wide_target(b, p) == target
}

/// What a `B.W` does.
proof fn lemma_wide_step(b: Seq<u8>, s: Core, target: int)
    requires
        !s.done,
        wide_to(b, s.pc, target),
    ensures
        step(b, s) == Some(s.to(target)),
{
    reveal(step);
    let h = half_at(b, s.pc);
    assert(h / 2048 == 30 ==> h / 256 >= 240 && h / 512 >= 120 && h / 64 >= 960);
}

/// What a `CMP` with zero does.
proof fn lemma_zero_step(b: Seq<u8>, s: Core)
    requires
        !s.done,
        0 <= s.pc,
        s.pc + 2 <= b.len(),
        half_at(b, s.pc) == 0x2800,
    ensures
        step(b, s) == Some(Core { pc: s.pc + 2, equal: s.regs[0] == 0, ..s }),
{
    reveal(step);
}

/// What a `BNE` over four bytes does.
proof fn lemma_skip_step(b: Seq<u8>, s: Core)
    requires
        !s.done,
        0 <= s.pc,
        s.pc + 2 <= b.len(),
        half_at(b, s.pc) == 0xD101,
    ensures
        step(b, s) == Some(
            s.to(
                if s.equal {
                    s.pc + 2
                } else {
                    s.pc + 6
                },
            ),
        ),
{
    reveal(step);
}

/// A patched branch is a `B.W`.
proof fn lemma_patched(code: Seq<u8>, p: int, target: int)
    requires
        0 <= p,
        p + 4 <= code.len(),
        -0x100_0000 <= target - p - 4 < 0x100_0000,
        (target - p) % 2 == 0,
    ensures
        wide_to(patched(code, p, target), p, target),
{
    law_patched_branches_reach_their_target(code, p, target);
    let w = wide_branch(target - p - 4);
    let c = patched(code, p, target);
    lemma_branch_class(target - p - 4);
    assert(c[p] == w[0] && c[p + 1] == w[1] && c[p + 2] == w[2] && c[p + 3] == w[3]);
}

/// The class of a `B.W`.
proof fn lemma_branch_class(delta: int)
    ensures
        wide_branch(delta).len() == 4,
        half_at(wide_branch(delta), 0) / 2048 == 30,
        half_at(wide_branch(delta), 2) / 32768 == 1,
        (half_at(wide_branch(delta), 2) / 4096) % 2 == 1,
{
    let d = bits(delta);
    let s = (d / 0x100_0000) % 2;
    let i1 = (d / 0x80_0000) % 2;
    let i2 = (d / 0x40_0000) % 2;
    let (m, l) = ((d / 4096) % 1024, (d / 2) % 2048);
    lemma_halves_at(
        0xF000 + s * 1024 + m,
        0x9000 + same_bit(i1, s) * 8192 + same_bit(i2, s) * 2048 + l,
    );
    lemma_class_fields(s, m, same_bit(i1, s), same_bit(i2, s), l);
}

/// The fields that tell a `B.W`.
proof fn lemma_class_fields(s: int, m: int, j1: int, j2: int, l: int)
    requires
        0 <= s < 2,
        0 <= m < 1024,
        0 <= j1 < 2,
        0 <= j2 < 2,
        0 <= l < 2048,
    ensures
        (0xF000 + s * 1024 + m) / 2048 == 30,
        (0x9000 + j1 * 8192 + j2 * 2048 + l) / 32768 == 1,
        ((0x9000 + j1 * 8192 + j2 * 2048 + l) / 4096) % 2 == 1,
{
}

/// What the branch at the end of a loop does.
proof fn lemma_back(b: Seq<u8>, c: Seq<u8>, s: Core, target: int)
    requires
        !s.done,
        s.pc == c.len(),
        0 <= target <= c.len(),
        c.len() < 0x100_0000 - 4,
        (target - c.len()) % 2 == 0,
        agree(
            b,
            c + branch_to(c.len() as int, target),
            c.len() as int,
            (c + branch_to(c.len() as int, target)).len() as int,
        ),
    ensures
        step(b, s) == Some(s.to(target)),
{
    let p = c.len() as int;
    let w = branch_to(p, target);
    let delta = target - p - 4;
    law_branches_reach_their_target(p, target);
    if -2048 <= delta <= 2046 {
        let d = c + w;
        assert(b[p] == d[p] && b[p + 1] == d[p + 1]);
        assert(half_at(b, p) == half_at(w, 0));
        reveal(step);
        let h = half_at(b, p);
        assert(h / 2048 == 28 ==> h / 256 >= 224 && h / 512 >= 112 && h / 64 >= 896);
    } else {
        lemma_branch_class(delta);
        lemma_read_wide(b, c, w);
        lemma_wide_step(b, s, target);
    }
}

/// The code goes on from `c`, by a whole number of halves.
pub open spec fn goes_on(d: Seq<u8>, c: Seq<u8>) -> bool {
    &&& c.len() <= d.len()
    &&& (d.len() - c.len()) % 2 == 0
    &&& agree(d, c, 0, c.len() as int)
}

/// What goes on from what goes on.
proof fn lemma_goes_on(e: Seq<u8>, d: Seq<u8>, c: Seq<u8>)
    requires
        goes_on(e, d),
        goes_on(d, c),
    ensures
        goes_on(e, c),
{
    assert forall|i: int| 0 <= i < c.len() implies #[trigger] e[i] == c[i] by {
        assert(e[i] == d[i]);
        assert(d[i] == c[i]);
    }
}

/// The code of a constant.
proof fn lemma_constant_even(code: Seq<u8>, v: i64, rd: u8)
    ensures
        goes_on(load_constant(code, v, rd), code),
{
    lemma_half_len();
}

/// Halves are of two bytes.
proof fn lemma_half_len()
    ensures
        forall|n: int| (#[trigger] half(n)).len() == 2,
{
    assert forall|n: int| (#[trigger] half(n)).len() == 2 by {
        lemma_le_len(n as nat, 2);
    }
}

/// The code of an expression goes on from what is there.
proof fn lemma_expr_even(code: Seq<u8>, regs: Map<Seq<char>, u8>, e: Expr, rd: u8)
    ensures
        goes_on(expr_fw(code, regs, e, rd), code),
    decreases e,
{
    lemma_half_len();
    let t = next_temp(rd);
    match e {
        Expr::Integer(i) => {
            lemma_constant_even(code, i.value, rd);
        },
        Expr::Binary(b) => {
            let c1 = expr_fw(code, regs, *b.left, rd);
            let c2 = expr_fw(c1, regs, *b.right, t);
            lemma_expr_even(code, regs, *b.left, rd);
            lemma_expr_even(c1, regs, *b.right, t);
            lemma_goes_on(c2, c1, code);
        },
        Expr::Cast(c) => {
            lemma_expr_even(code, regs, *c.expr, rd);
        },
        _ => {},
    }
}

/// The code of a condition goes on from what is there, by eight bytes at least.
proof fn lemma_cond_even(st: Fw, e: Expr)
    ensures
        goes_on(cond_fw(st, e).code, st.code),
        cond_fw(st, e).code.len() == expr_fw(st.code, st.regs, e, 0).len() + 8,
        cond_fw(st, e).code.len() >= st.code.len() + 8,
        cond_fw(st, e).regs == st.regs,
{
    lemma_half_len();
    lemma_expr_even(st.code, st.regs, e, 0);
    let c = expr_fw(st.code, st.regs, e, 0);
    assert(goes_on(cond_fw(st, e).code, c));
    lemma_goes_on(cond_fw(st, e).code, c, st.code);
}

/// A patch behind `c` leaves it.
proof fn lemma_patch_behind(d: Seq<u8>, c: Seq<u8>, p: int, target: int)
    requires
        goes_on(d, c),
        c.len() <= p,
        p + 4 <= d.len(),
    ensures
        goes_on(patched(d, p, target), c),
        patched(d, p, target).len() == d.len(),
{
    lemma_branch_class(target - p - 4);
    let e = patched(d, p, target);
    assert forall|i: int| 0 <= i < c.len() implies #[trigger] e[i] == c[i] by {
        assert(e[i] == d[i]);
    }
}

/// Patches behind `c` leave it.
proof fn lemma_patches_behind(d: Seq<u8>, c: Seq<u8>, ends: Seq<int>, target: int, k: nat)
    requires
        goes_on(d, c),
        k <= ends.len(),
        forall|i: int| 0 <= i < ends.len() ==> c.len() <= #[trigger] ends[i] && ends[i] + 4 <= d.len(),
    ensures
        goes_on(all_patched(d, ends, target, k), c),
        all_patched(d, ends, target, k).len() == d.len(),
    decreases k,
{
    if k > 0 {
        let j = (k - 1) as nat;
        lemma_patches_behind(d, c, ends, target, j);
        lemma_patch_behind(
            all_patched(d, ends, target, j),
            c,
            ends[k - 1],
            target,
        );
    }
}

/// The code of a loop, whose branch over the body is patched.
pub open spec fn loop_code(start: Seq<u8>, cond: Seq<u8>, body: Seq<u8>) -> Seq<u8> {
    let c = body + branch_to(body.len() as int, start.len() as int);
    patched(c, cond.len() - 4, c.len() as int)
}

/// The code of a loop goes on from what is there.
proof fn lemma_loop_shape(start: Seq<u8>, cond: Seq<u8>, body: Seq<u8>)
    requires
        goes_on(cond, start),
        cond.len() >= start.len() + 8,
        goes_on(body, cond),
    ensures
        goes_on(loop_code(start, cond, body), start),
        loop_code(start, cond, body).len() >= body.len() + 2,
{
    lemma_half_len();
    let back = branch_to(body.len() as int, start.len() as int);
    lemma_branch_class(start.len() - body.len() - 4);
    let c = body + back;
    assert(back.len() == 2 || back.len() == 4);
    assert(goes_on(c, body));
    lemma_goes_on(body, cond, start);
    lemma_goes_on(c, body, start);
    lemma_patch_behind(c, start, cond.len() - 4, c.len() as int);
}

/// The code `all` is `c` with a `B.W` to `target` at position `p`.
pub open spec fn mends(all: Seq<u8>, c: Seq<u8>, p: int, target: int) -> bool {
    &&& all.len() == c.len()
    &&& agree(all, c, 0, p)
    &&& agree(all, c, p + 4, c.len() as int)
    &&& wide_to(all, p, target)
}

/// A patch puts a `B.W` into the code.
proof fn lemma_mends(c: Seq<u8>, p: int, target: int)
    requires
        0 <= p,
        p + 4 <= c.len(),
        c.len() < 0x100_0000 - 4,
        0 <= target <= c.len(),
        (target - p) % 2 == 0,
    ensures
        mends(patched(c, p, target), c, p, target),
{
    law_patched_branches_reach_their_target(c, p, target);
    lemma_patched(c, p, target);
}

/// A patch keeps the length of the code.
proof fn lemma_patch_len(c: Seq<u8>, p: int, target: int)
    requires
        0 <= p,
        p + 4 <= c.len(),
    ensures
        patched(c, p, target).len() == c.len(),
{
    lemma_branch_class(target - p - 4);
}

/// The code of a loop is patched.
proof fn lemma_loop_mends(start: Seq<u8>, cond: Seq<u8>, body: Seq<u8>)
    requires
        goes_on(cond, start),
        cond.len() >= start.len() + 8,
        goes_on(body, cond),
        loop_code(start, cond, body).len() < 0x100_0000 - 4,
    ensures
        mends(
            loop_code(start, cond, body),
            body + branch_to(body.len() as int, start.len() as int),
            cond.len() - 4,
            (body + branch_to(body.len() as int, start.len() as int)).len() as int,
        ),
        loop_code(start, cond, body).len() > body.len(),
{
    lemma_back_len(body.len() as int, start.len() as int);
    let c = body + branch_to(body.len() as int, start.len() as int);
    lemma_patch_len(c, cond.len() - 4, c.len() as int);
    lemma_mends(c, cond.len() - 4, c.len() as int);
}

/// The parts of the code of a loop.
proof fn lemma_loop_parts(all: Seq<u8>, start: Seq<u8>, cond: Seq<u8>, body: Seq<u8>, back: Seq<u8>)
    requires
        goes_on(cond, start),
        cond.len() >= start.len() + 8,
        goes_on(body, cond),
        mends(all, body + back, cond.len() - 4, (body + back).len() as int),
    ensures
        agree(all, cond, start.len() as int, cond.len() - 4),
        agree(all, body + back, body.len() as int, (body + back).len() as int),
{
    let c = body + back;
    let p = cond.len() - 4;
    assert forall|i: int| start.len() <= i < p implies #[trigger] all[i] == cond[i] by {
        assert(all[i] == c[i]);
        assert(body[i] == cond[i]);
    }
    assert forall|i: int| body.len() <= i < c.len() implies #[trigger] all[i] == c[i] by {
        assert(p + 4 <= i);
    }
}

/// The length of the branch at the end of a loop.
proof fn lemma_back_len(pos: int, target: int)
    ensures
        branch_to(pos, target).len() == 2 || branch_to(pos, target).len() == 4,
{
    lemma_half_len();
    lemma_branch_class(target - pos - 4);
}

/// What agrees with what agrees.
proof fn lemma_through(b: Seq<u8>, c: Seq<u8>, d: Seq<u8>, lo: int, hi: int, from: int, to: int)
    requires
        agree(b, c, lo, hi),
        agree(c, d, from, to),
        lo <= from,
        to <= hi,
    ensures
        agree(b, d, from, to),
{
    assert forall|i: int| from <= i < to implies #[trigger] b[i] == d[i] by {
        assert(b[i] == c[i]);
        assert(c[i] == d[i]);
    }
}

/// The code of a statement goes on from what is there.
proof fn lemma_stmt_even(st: Fw, s: Stmt)
    ensures
        goes_on(stmt_fw(st, s).code, st.code),
    decreases s,
{
    lemma_half_len();
    match s {
        Stmt::Assign(a) => {
            if a.targets@.len() > 0 {
                match a.targets@[0] {
                    Assignee::Identifier(id) => {
                        let s1 = var_fw(st, id.name@);
                        lemma_expr_even(s1.code, s1.regs, a.value, s1.regs[id.name@]);
                    },
                    _ => {},
                }
            }
        },
        Stmt::While(w) => {
            let s1 = cond_fw(st, w.condition);
            lemma_cond_even(st, w.condition);
            lemma_stmts_even(s1, w.body@, w.body@.len());
            lemma_loop_shape(st.code, s1.code, stmts_fw(s1, w.body@, w.body@.len()).code);
        },
        Stmt::If(i) => {
            lemma_if_even(st, i);
        },
        Stmt::Return(r) => {
            if r.values@.len() > 0 {
                let c = expr_fw(st.code, st.regs, r.values@[0], 0);
                lemma_expr_even(st.code, st.regs, r.values@[0], 0);
                assert(goes_on(c + half(0x4770), c));
                lemma_goes_on(c + half(0x4770), c, st.code);
            }
        },
        _ => {},
    }
}

/// The code of statements goes on from what is there.
proof fn lemma_stmts_even(st: Fw, ss: Seq<Stmt>, k: nat)
    ensures
        goes_on(stmts_fw(st, ss, k).code, st.code),
    decreases ss, k,
{
    if k > 0 && k <= ss.len() {
        let m = stmts_fw(st, ss, (k - 1) as nat);
        lemma_stmts_even(st, ss, (k - 1) as nat);
        lemma_stmt_even(m, ss[k - 1]);
        lemma_goes_on(stmt_fw(m, ss[k - 1]).code, m.code, st.code);
    }
}

/// The branches that are to be patched lie behind `c`.
pub open spec fn behind(a: Arms, c: Seq<u8>) -> bool {
    &&& goes_on(a.st.code, c)
    &&& c.len() <= a.pending
    &&& a.pending + 4 <= a.st.code.len()
    &&& forall|i: int|
        0 <= i < a.ends.len() ==> c.len() <= #[trigger] a.ends[i] && a.ends[i] + 4
            <= a.st.code.len()
}

/// The end of an arm goes on from what is there.
proof fn lemma_arm_even(a: Arms, c: Seq<u8>)
    requires
        behind(a, c),
    ensures
        behind(arm_end(a), c),
        arm_end(a).st.code.len() == a.st.code.len() + 4,
{
    lemma_half_len();
    let d = a.st.code + halves(0xF000, 0x9000);
    assert(goes_on(d, a.st.code));
    lemma_goes_on(d, a.st.code, c);
    lemma_patch_behind(d, c, a.pending, d.len() as int);
    let p = arm_end(a);
    assert forall|i: int| 0 <= i < p.ends.len() implies c.len() <= #[trigger] p.ends[i] && p.ends[i]
        + 4 <= p.st.code.len() by {
        if i < a.ends.len() {
            assert(p.ends[i] == a.ends[i]);
        }
    }
}

/// The `elif` branches go on from what is there.
proof fn lemma_elif_even(a: Arms, cs: Seq<(Expr, Vec<Stmt>)>, k: nat, c: Seq<u8>)
    requires
        behind(a, c),
    ensures
        behind(elif_fw(a, cs, k), c),
    decreases cs, k,
{
    if k > 0 && k <= cs.len() {
        lemma_elif_even(a, cs, (k - 1) as nat, c);
        let q = elif_fw(a, cs, (k - 1) as nat);
        lemma_arm_even(q, c);
        let p = arm_end(q);
        let s1 = cond_fw(p.st, cs[k - 1].0);
        lemma_cond_even(p.st, cs[k - 1].0);
        lemma_stmts_even(s1, cs[k - 1].1@, cs[k - 1].1@.len());
        let s2 = stmts_fw(s1, cs[k - 1].1@, cs[k - 1].1@.len());
        lemma_goes_on(s1.code, p.st.code, c);
        lemma_goes_on(s2.code, s1.code, c);
    }
}

/// The code of an `if` goes on from what is there.
proof fn lemma_if_even(st: Fw, i: IfStmt)
    ensures
        goes_on(if_fw(st, i).code, st.code),
    decreases i,
{
    let s1 = cond_fw(st, i.condition);
    lemma_cond_even(st, i.condition);
    lemma_stmts_even(s1, i.then_body@, i.then_body@.len());
    let s2 = stmts_fw(s1, i.then_body@, i.then_body@.len());
    lemma_goes_on(s2.code, s1.code, st.code);
    let first = Arms { st: s2, pending: s1.code.len() - 4, ends: Seq::empty() };
    assert(behind(first, st.code));
    lemma_elif_even(first, i.elif_chain@, i.elif_chain@.len(), st.code);
    let a = elif_fw(first, i.elif_chain@, i.elif_chain@.len());
    match i.else_body {
        Some(b) => {
            lemma_arm_even(a, st.code);
            let p = arm_end(a);
            lemma_stmts_even(p.st, b@, b@.len());
            let s3 = stmts_fw(p.st, b@, b@.len());
            lemma_goes_on(s3.code, p.st.code, st.code);
            lemma_patches_behind(s3.code, st.code, p.ends, s3.code.len() as int, p.ends.len());
        },
        None => {
            let c = patched(a.st.code, a.pending, a.st.code.len() as int);
            lemma_patch_behind(a.st.code, st.code, a.pending, a.st.code.len() as int);
            lemma_patches_behind(c, st.code, a.ends, c.len() as int, a.ends.len());
        },
    }
}

/// The code of a condition goes on behind its branch where the value is not zero,
/// and to where the branch leads where it is.
proof fn lemma_cond(b: Seq<u8>, st: Fw, e: Expr, vals: Map<Seq<char>, int>, target: int, s: Core) -> (t: Core)
    requires
        s.pc == st.code.len(),
        !s.done,
        agree(b, cond_fw(st, e).code, st.code.len() as int, cond_fw(st, e).code.len() - 4),
        wide_to(b, cond_fw(st, e).code.len() - 4, target),
        meaning(e, vals) is Some,
        at_hand(e, st.regs, vals, s),
        undisturbed(e, 0, st.regs),
    ensures
        leads(b, s, t),
        tests(
            s,
            t,
            if meaning(e, vals)->Some_0 != 0 {
                cond_fw(st, e).code.len() as int
            } else {
                target
            },
            written(e, 0),
        ),
{
    lemma_here(b, s);
    lemma_half_len();
    lemma_cond_even(st, e);
    lemma_expr_even(st.code, st.regs, e, 0);
    let all = cond_fw(st, e).code;
    let k = st.code.len() as int;
    let c1 = expr_fw(st.code, st.regs, e, 0);
    let c2 = c1 + half(0x2800);
    let c3 = c2 + skip_wide(0);
    let m = c1.len() as int;
    assert(all =~= c3 + halves(0xF000, 0x9000));
    assert(goes_on(all, c3));
    assert(goes_on(c3, c2));
    assert(goes_on(c2, c1));
    lemma_goes_on(all, c3, c2);
    lemma_goes_on(all, c2, c1);
    lemma_part(b, c1, all, k, m, m + 4);
    lemma_part(b, c2, all, k, m + 2, m + 4);
    lemma_part(b, c3, all, k, m + 4, m + 4);
    let t1 = lemma_expr(b, st.code, st.regs, e, 0, vals, s, s);
    lemma_writes(e, 0);
    assert(agree(b, c2, m, m + 2));
    lemma_read(b, c1, 0x2800);
    lemma_zero_step(b, t1);
    let t2 = lemma_step(b, s, t1);
    assert(agree(b, c3, m + 2, m + 4));
    lemma_read(b, c2, 0xD101);
    lemma_skip_step(b, t2);
    let t3 = lemma_step(b, s, t2);
    if t2.equal {
        lemma_wide_step(b, t3, target);
        lemma_step(b, s, t3)
    } else {
        t3
    }
}

/// The core has got to a place, and no register has changed but those in `w`.
pub open spec fn tests(s: Core, t: Core, pc: int, w: Set<int>) -> bool {
    &&& t.pc == pc
    &&& t.done == s.done
    &&& forall|r: int| !w.contains(r) ==> #[trigger] t.regs[r] == s.regs[r]
}

/// A `while` loop runs its body for as long as its condition is not zero: a core
/// at its beginning gets to the body where the condition is not zero, and behind
/// the loop where it is. From the end of the body it gets back to the beginning.
pub proof fn law_while_loops_run_while_their_condition_holds(b: Seq<u8>, st: Fw, w: WhileStmt, vals: Map<Seq<char>, int>, s: Core, e: Core)
    requires
        agree(
            b,
            stmt_fw(st, Stmt::While(w)).code,
            st.code.len() as int,
            stmt_fw(st, Stmt::While(w)).code.len() as int,
        ),
        stmt_fw(st, Stmt::While(w)).code.len() < 0x100_0000 - 4,
        s.pc == st.code.len(),
        !s.done,
        meaning(w.condition, vals) is Some,
        at_hand(w.condition, st.regs, vals, s),
        undisturbed(w.condition, 0, st.regs),
        e.pc == stmts_fw(cond_fw(st, w.condition), w.body@, w.body@.len()).code.len(),
        !e.done,
    ensures
        exists|t: Core| #[trigger]
            leads(b, s, t) && tests(
                s,
                t,
                if meaning(w.condition, vals)->Some_0 != 0 {
                    cond_fw(st, w.condition).code.len() as int
                } else {
                    stmt_fw(st, Stmt::While(w)).code.len() as int
                },
                written(w.condition, 0),
            ),
        leads(b, e, e.to(st.code.len() as int)),
{
    let s1 = cond_fw(st, w.condition);
    let s2 = stmts_fw(s1, w.body@, w.body@.len());
    lemma_cond_even(st, w.condition);
    lemma_stmts_even(s1, w.body@, w.body@.len());
    let all = stmt_fw(st, Stmt::While(w)).code;
    assert(all == loop_code(st.code, s1.code, s2.code));
    lemma_loop_mends(st.code, s1.code, s2.code);
    let back = branch_to(s2.code.len() as int, st.code.len() as int);
    lemma_loop_runs(b, all, st.code, s1.code, s2.code, back, e);
    let t = lemma_cond(b, st, w.condition, vals, all.len() as int, s);
    assert(leads(b, s, t));
}

/// The branches of a loop.
proof fn lemma_loop_runs(b: Seq<u8>, all: Seq<u8>, start: Seq<u8>, cond: Seq<u8>, body: Seq<u8>, back: Seq<u8>, e: Core)
    requires
        goes_on(cond, start),
        cond.len() >= start.len() + 8,
        goes_on(body, cond),
        back == branch_to(body.len() as int, start.len() as int),
        all.len() > body.len(),
        all.len() < 0x100_0000 - 4,
        mends(all, body + back, cond.len() - 4, (body + back).len() as int),
        agree(b, all, start.len() as int, all.len() as int),
        e.pc == body.len(),
        !e.done,
    ensures
        agree(b, cond, start.len() as int, cond.len() - 4),
        wide_to(b, cond.len() - 4, all.len() as int),
        leads(b, e, e.to(start.len() as int)),
{
    let c = body + back;
    lemma_loop_parts(all, start, cond, body, back);
    let (lo, hi, p) = (start.len() as int, all.len() as int, cond.len() - 4);
    lemma_through(b, all, cond, lo, hi, lo, p);
    lemma_through(b, all, c, lo, hi, body.len() as int, hi);
    lemma_same_wide(b, all, p, hi);
    lemma_goes_on(body, cond, start);
    lemma_here(b, e);
    lemma_back(b, body, e, lo);
    let u = lemma_step(b, e, e);
}

/// A `B.W` in code that agrees.
proof fn lemma_same_wide(b: Seq<u8>, c: Seq<u8>, p: int, target: int)
    requires
        wide_to(c, p, target),
        agree(b, c, p, p + 4),
    ensures
        wide_to(b, p, target),
{
    assert(b[p] == c[p] && b[p + 1] == c[p + 1] && b[p + 2] == c[p + 2] && b[p + 3] == c[p + 3]);
}

/// An `if` without `elif` runs one of its branches: a core at its beginning gets
/// to the first branch where the condition is not zero, and to the second one, or
/// behind the `if` where there is none, where it is. From the end of the first
/// branch the core gets behind the `if`.
pub proof fn law_ifs_run_one_branch(b: Seq<u8>, st: Fw, i: IfStmt, vals: Map<Seq<char>, int>, s: Core, e: Core)
    requires
        i.elif_chain@.len() == 0,
        agree(b, if_fw(st, i).code, st.code.len() as int, if_fw(st, i).code.len() as int),
        if_fw(st, i).code.len() < 0x100_0000 - 4,
        s.pc == st.code.len(),
        !s.done,
        meaning(i.condition, vals) is Some,
        at_hand(i.condition, st.regs, vals, s),
        undisturbed(i.condition, 0, st.regs),
        e.pc == stmts_fw(cond_fw(st, i.condition), i.then_body@, i.then_body@.len()).code.len(),
        !e.done,
    ensures
        ({
            let s1 = cond_fw(st, i.condition);
            let s2 = stmts_fw(s1, i.then_body@, i.then_body@.len());
            let end = if_fw(st, i).code.len() as int;
            &&& exists|t: Core| #[trigger]
                leads(b, s, t) && tests(
                    s,
                    t,
                    if meaning(i.condition, vals)->Some_0 != 0 {
                        s1.code.len() as int
                    } else if i.else_body is Some {
                        s2.code.len() as int + 4
                    } else {
                        end
                    },
                    written(i.condition, 0),
                )
            &&& leads(b, e, e.to(end))
        }),
{
    let s1 = cond_fw(st, i.condition);
    let s2 = stmts_fw(s1, i.then_body@, i.then_body@.len());
    lemma_here(b, e);
    lemma_cond_even(st, i.condition);
    lemma_stmts_even(s1, i.then_body@, i.then_body@.len());
    let p = s1.code.len() - 4;
    let q = s2.code.len() as int;
    let a = Arms { st: s2, pending: p, ends: Seq::empty() };
    assert(elif_fw(a, i.elif_chain@, 0) == a);
    match i.else_body {
        Some(x) => {
            let d = branch_code(s1.code, s2.code);
            let m = arm_end(a);
            assert(m.ends =~= seq![q]);
            assert(m.st.code == d);
            lemma_stmts_even(m.st, x@, x@.len());
            let s3 = stmts_fw(m.st, x@, x@.len());
            reveal_with_fuel(all_patched, 2);
            let f = if_fw(st, i).code;
            let end = s3.code.len() as int;
            assert(f == patched(s3.code, q, end));
            lemma_behind_room(s1.code, s2.code, d, s3.code, f, end);
            lemma_half_len();
            lemma_branch_parts(b, st.code, s1.code, s2.code, halves(0xF000, 0x9000), d, s3.code, f);
            lemma_wide_step(b, e, end);
            let u = lemma_step(b, e, e);
            let t = lemma_cond(b, st, i.condition, vals, q + 4, s);
            assert(leads(b, s, t));
        },
        None => {
            assert(if_fw(st, i).code == patched(s2.code, p, q));
            lemma_short_runs(b, st.code, s1.code, s2.code);
            let t = lemma_cond(b, st, i.condition, vals, q, s);
            assert(leads(b, s, t));
            assert(e.to(q) == e);
        },
    }
}

/// The code of the first branch of an `if`, with the branch over it patched.
pub open spec fn branch_code(cond: Seq<u8>, body: Seq<u8>) -> Seq<u8> {
    let c = body + halves(0xF000, 0x9000);
    patched(c, cond.len() - 4, c.len() as int)
}

/// The code of the first branch is patched.
proof fn lemma_branch_mends(cond: Seq<u8>, body: Seq<u8>)
    requires
        goes_on(body, cond),
        cond.len() >= 8,
        branch_code(cond, body).len() < 0x100_0000 - 4,
    ensures
        branch_code(cond, body).len() == body.len() + 4,
        mends(
            branch_code(cond, body),
            body + halves(0xF000, 0x9000),
            cond.len() - 4,
            body.len() as int + 4,
        ),
{
    lemma_half_len();
    let c = body + halves(0xF000, 0x9000);
    assert(c.len() == body.len() + 4);
    lemma_patch_len(c, cond.len() - 4, c.len() as int);
    lemma_mends(c, cond.len() - 4, c.len() as int);
}

/// The code of an `if` with two branches is patched.
proof fn lemma_behind_room(cond: Seq<u8>, body: Seq<u8>, d: Seq<u8>, other: Seq<u8>, f: Seq<u8>, end: int)
    requires
        goes_on(body, cond),
        cond.len() >= 8,
        d == branch_code(cond, body),
        goes_on(other, d),
        end == other.len(),
        f == patched(other, body.len() as int, end),
        f.len() < 0x100_0000 - 4,
    ensures
        f.len() == other.len(),
        mends(d, body + halves(0xF000, 0x9000), cond.len() - 4, body.len() as int + 4),
        mends(f, other, body.len() as int, end),
{
    lemma_half_len();
    lemma_patch_len(body + halves(0xF000, 0x9000), cond.len() - 4, body.len() as int + 4);
    assert(d.len() == body.len() + 4);
    lemma_patch_len(other, body.len() as int, end);
    lemma_branch_mends(cond, body);
    lemma_mends(other, body.len() as int, end);
}

/// The parts of the code of an `if` with two branches.
proof fn lemma_branch_parts(b: Seq<u8>, start: Seq<u8>, cond: Seq<u8>, body: Seq<u8>, room: Seq<u8>, d: Seq<u8>, other: Seq<u8>, f: Seq<u8>)
    requires
        goes_on(cond, start),
        cond.len() >= start.len() + 8,
        goes_on(body, cond),
        room.len() == 4,
        mends(d, body + room, cond.len() - 4, body.len() as int + 4),
        goes_on(other, d),
        mends(f, other, body.len() as int, other.len() as int),
        agree(b, f, start.len() as int, f.len() as int),
    ensures
        agree(b, cond, start.len() as int, cond.len() - 4),
        wide_to(b, cond.len() - 4, body.len() as int + 4),
        wide_to(b, body.len() as int, other.len() as int),
{
    let c = body + room;
    let (lo, p, q) = (start.len() as int, cond.len() - 4, body.len() as int);
    let end = other.len() as int;
    lemma_same_wide(b, f, q, end);
    assert forall|k: int| lo <= k < q implies #[trigger] f[k] == d[k] by {
        assert(f[k] == other[k]);
        assert(other[k] == d[k]);
    }
    lemma_through(b, f, d, lo, end, lo, q);
    assert forall|k: int| lo <= k < p implies #[trigger] d[k] == cond[k] by {
        assert(d[k] == c[k]);
        assert(body[k] == cond[k]);
    }
    lemma_through(b, d, cond, lo, q, lo, p);
    lemma_same_wide(b, d, p, q + 4);
}

/// The branch of an `if` with one branch.
proof fn lemma_short_runs(b: Seq<u8>, start: Seq<u8>, cond: Seq<u8>, body: Seq<u8>)
    requires
        goes_on(cond, start),
        cond.len() >= start.len() + 8,
        goes_on(body, cond),
        body.len() < 0x100_0000 - 4,
        agree(
            b,
            patched(body, cond.len() - 4, body.len() as int),
            start.len() as int,
            patched(body, cond.len() - 4, body.len() as int).len() as int,
        ),
    ensures
        patched(body, cond.len() - 4, body.len() as int).len() == body.len(),
        agree(b, cond, start.len() as int, cond.len() - 4),
        wide_to(b, cond.len() - 4, body.len() as int),
{
    let (lo, p, q) = (start.len() as int, cond.len() - 4, body.len() as int);
    let f = patched(body, p, q);
    law_patched_branches_reach_their_target(body, p, q);
    lemma_patched(body, p, q);
    lemma_same_wide(b, f, p, q);
    assert forall|k: int| lo <= k < p implies #[trigger] f[k] == cond[k] by {
        assert(f[k] == body[k]);
        assert(body[k] == cond[k]);
    }
    lemma_through(b, f, cond, lo, q, lo, p);
}

/// A `return` puts its value into `r0` and returns.
pub proof fn law_returns_give_their_value(b: Seq<u8>, st: Fw, r: ReturnStmt, vals: Map<Seq<char>, int>, s: Core)
    requires
        agree(
            b,
            stmt_fw(st, Stmt::Return(r)).code,
            st.code.len() as int,
            stmt_fw(st, Stmt::Return(r)).code.len() as int,
        ),
        s.pc == st.code.len(),
        !s.done,
        r.values@.len() > 0 ==> meaning(r.values@[0], vals) is Some && at_hand(
            r.values@[0],
            st.regs,
            vals,
            s,
        ) && undisturbed(r.values@[0], 0, st.regs),
    ensures
        exists|t: Core| #[trigger]
            leads(b, s, t) && t.done && t.regs[0] == (if r.values@.len() > 0 {
                meaning(r.values@[0], vals)->Some_0
            } else {
                0
            }),
{
    lemma_half_len();
    lemma_here(b, s);
    let all = stmt_fw(st, Stmt::Return(r)).code;
    let k = st.code.len() as int;
    let c = if r.values@.len() > 0 {
        expr_fw(st.code, st.regs, r.values@[0], 0)
    } else {
        st.code + half(0x2000)
    };
    assert(all == c + half(0x4770));
    assert(goes_on(all, c));
    let m = c.len() as int;
    let t1 = if r.values@.len() > 0 {
        lemma_expr_even(st.code, st.regs, r.values@[0], 0);
        lemma_part(b, c, all, k, m, m + 2);
        lemma_expr(b, st.code, st.regs, r.values@[0], 0, vals, s, s)
    } else {
        lemma_part(b, c, all, k, m, m + 2);
        lemma_read(b, st.code, 0x2000);
        lemma_movs(b, s, 0, 0);
        lemma_step(b, s, s)
    };
    assert(agree(b, all, m, m + 2));
    lemma_read(b, c, 0x4770);
    assert(step(b, t1) == Some(Core { done: true, ..t1 })) by {
        reveal(step);
    }
    let t = lemma_step(b, s, t1);
    assert(leads(b, s, t));
}

/// An assignment puts the value into the register of the variable, and into no
/// register of another variable that the expression does not write.
pub proof fn law_assignments_give_their_value(b: Seq<u8>, st: Fw, n: Seq<char>, e: Expr, vals: Map<Seq<char>, int>, s: Core)
    requires
        ({
            let s1 = var_fw(st, n);
            let c = expr_fw(s1.code, s1.regs, e, s1.regs[n]);
            &&& agree(b, c, st.code.len() as int, c.len() as int)
            &&& s1.regs[n] < 8
            &&& at_hand(e, s1.regs, vals, s)
            &&& undisturbed(e, s1.regs[n], s1.regs)
        }),
        s.pc == st.code.len(),
        !s.done,
        meaning(e, vals) is Some,
    ensures
        ({
            let s1 = var_fw(st, n);
            let c = expr_fw(s1.code, s1.regs, e, s1.regs[n]);
            exists|t: Core| #[trigger]
                leads(b, s, t) && gives(
                    s,
                    t,
                    c.len() as int,
                    s1.regs[n],
                    meaning(e, vals)->Some_0,
                    written(e, s1.regs[n]),
                )
        }),
{
    let s1 = var_fw(st, n);
    law_expressions_compute_their_value(b, s1.code, s1.regs, e, s1.regs[n], vals, s);
}

} // verus!
