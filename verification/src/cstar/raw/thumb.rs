//! Thumb-2 instruction encoder for the Cortex-M3.
//!
//! Every encoding is given as the sum of its fields.

use vstd::prelude::*;
use crate::bytes::{le_bytes, lemma_le_len, push_le};

verus! {

// ---------------------------------------------------------------------------
// Encodings
// ---------------------------------------------------------------------------

/// The bytes of a 16-bit instruction.
pub open spec fn half(n: int) -> Seq<u8> {
    le_bytes(n as nat, 2)
}

/// The bytes of a 32-bit instruction: two halves, the upper one first.
pub open spec fn halves(hi: int, lo: int) -> Seq<u8> {
    half(hi) + half(lo)
}

/// `MOVW Rd, #imm16` (`op` 0xF240) and `MOVT Rd, #imm16` (`op` 0xF2C0):
/// `op i imm4 | imm3 Rd imm8`.
pub open spec fn wide_move(op: int, rd: int, imm: int) -> Seq<u8> {
    halves(
        op + (imm / 2048) % 2 * 1024 + imm / 4096,
        (imm / 256) % 8 * 4096 + rd % 16 * 256 + imm % 256,
    )
}

/// The bits of `delta`, in 32-bit two's complement.
pub open spec fn bits(delta: int) -> int {
    delta % 0x1_0000_0000
}

/// One where two bits are equal, and zero where they are not.
pub open spec fn same_bit(a: int, b: int) -> int {
    if a == b {
        1
    } else {
        0
    }
}

/// `B.W` over `delta` bytes from the program counter:
/// `11110 S imm10 | 10 J1 1 J2 imm11`, with `J1 = NOT(I1 XOR S)` and
/// `J2 = NOT(I2 XOR S)`.
pub open spec fn wide_branch(delta: int) -> Seq<u8> {
    let d = bits(delta);
    let s = (d / 0x100_0000) % 2;
    let i1 = (d / 0x80_0000) % 2;
    let i2 = (d / 0x40_0000) % 2;
    halves(
        0xF000 + s * 1024 + (d / 4096) % 1024,
        0x9000 + same_bit(i1, s) * 8192 + same_bit(i2, s) * 2048 + (d / 2) % 2048,
    )
}

/// The branch from position `pos` to `target`: 16 bits within two kilobytes,
/// else 32 bits.
pub open spec fn branch_to(pos: int, target: int) -> Seq<u8> {
    let delta = target - pos - 4;
    if -2048 <= delta <= 2046 && delta % 2 == 0 {
        half(0xE000 + (delta / 2) % 2048)
    } else {
        wide_branch(delta)
    }
}

/// The conditional branch over the next `B.W`: `1101 cond imm8` with the
/// inverse condition.
pub open spec fn skip_wide(cond: int) -> Seq<u8> {
    half(0xD000 + inverse_cond(cond) % 16 * 256 + 1)
}

/// The condition that holds where `cond` does not.
pub open spec fn inverse_cond(cond: int) -> int {
    if cond % 2 == 0 {
        cond + 1
    } else {
        cond - 1
    }
}

/// The conditional branch from position `pos` to `target`: 16 bits within 256
/// bytes, else the inverse condition over a 32-bit branch.
pub open spec fn cond_branch_to(cond: int, pos: int, target: int) -> Seq<u8> {
    let delta = target - pos - 4;
    if -256 <= delta <= 254 && delta % 2 == 0 {
        half(0xD000 + cond % 16 * 256 + (delta / 2) % 256)
    } else {
        skip_wide(cond) + wide_branch(target - (pos + 2) - 4)
    }
}

/// The code with the bytes from position `pos` on replaced by `b`.
pub open spec fn overwritten(code: Seq<u8>, pos: int, b: Seq<u8>) -> Seq<u8> {
    code.take(pos) + b + code.skip(pos + b.len())
}

/// The code with the `B.W` at `pos` leading to `target`.
pub open spec fn patched(code: Seq<u8>, pos: int, target: int) -> Seq<u8> {
    overwritten(code, pos, wide_branch(target - pos - 4))
}

/// The bit `weight` where a register is in the list.
pub open spec fn list_bit(regs: Seq<u8>, r: u8, weight: int) -> int {
    if regs.contains(r) {
        weight
    } else {
        0
    }
}

/// The register list: a bit for each of the low registers, and the ninth bit
/// for `extra`.
pub open spec fn list_bits(regs: Seq<u8>, extra: u8) -> int {
    list_bit(regs, 0, 1) + list_bit(regs, 1, 2) + list_bit(regs, 2, 4) + list_bit(regs, 3, 8)
        + list_bit(regs, 4, 16) + list_bit(regs, 5, 32) + list_bit(regs, 6, 64) + list_bit(
        regs,
        7,
        128,
    ) + list_bit(regs, extra, 256)
}

/// The registers are low ones or `extra`.
pub open spec fn listable(regs: Seq<u8>, extra: u8) -> bool {
    forall|i: int| 0 <= i < regs.len() ==> (#[trigger] regs[i] < 8 || regs[i] == extra)
}

/// The condition "equal".
pub const COND_EQ: u8 = 0;

/// The encoder: the code so far.
pub struct ArmEmitter {
    pub code: Vec<u8>,
}

/// The bits of a distance.
fn low_bits(delta: i128) -> (d: u64)
    ensures
        d == bits(delta as int),
        d < 0x1_0000_0000,
{
    if delta >= 0 {
        (delta % 0x1_0000_0000) as u64
    } else {
        let up: i128 = (delta + 1) / -1;
        assert(up == -(delta + 1)) by (nonlinear_arith)
            requires
                up == (delta + 1) / -1,
        ;
        (0xffff_ffff - up % 0x1_0000_0000) as u64
    }
}

/// The halves of a `B.W` over `delta` bytes.
fn wide_branch_halves(delta: i128) -> (r: (u16, u16))
    ensures
        halves(r.0 as int, r.1 as int) == wide_branch(delta as int),
{
    let d: u64 = low_bits(delta);
    let s: u64 = (d / 0x100_0000) % 2;
    let i1: u64 = (d / 0x80_0000) % 2;
    let i2: u64 = (d / 0x40_0000) % 2;
    let j1: u64 = if i1 == s {
        1
    } else {
        0
    };
    let j2: u64 = if i2 == s {
        1
    } else {
        0
    };
    let hi: u64 = 0xF000 + s * 1024 + (d / 4096) % 1024;
    let lo: u64 = 0x9000 + j1 * 8192 + j2 * 2048 + (d / 2) % 2048;
    (hi as u16, lo as u16)
}

/// The distance from the program counter at `pos` to `target`.
fn distance(pos: usize, target: usize) -> (d: i128)
    ensures
        d == target - pos - 4,
{
    target as i128 - pos as i128 - 4
}

impl ArmEmitter {
    /// An encoder without code.
    pub fn new() -> (r: Self)
        ensures
            r.code@ == Seq::<u8>::empty(),
    {
        ArmEmitter { code: Vec::new() }
    }

    /// Emits a 16-bit instruction.
    pub fn emit16(&mut self, instr: u16)
        ensures
            final(self).code@ == old(self).code@ + half(instr as int),
            final(self).code@.len() == old(self).code@.len() + 2,
    {
        push_le(&mut self.code, instr as u64, 2);
        proof {
            lemma_le_len(instr as nat, 2);
        }
    }

    /// Emits a 32-bit instruction, its upper half first.
    pub fn emit32(&mut self, hi: u16, lo: u16)
        ensures
            final(self).code@ == old(self).code@ + halves(hi as int, lo as int),
            final(self).code@.len() == old(self).code@.len() + 4,
    {
        self.emit16(hi);
        self.emit16(lo);
        assert(self.code@ =~= old(self).code@ + halves(hi as int, lo as int));
    }

    /// `MOVS Rd, #imm8`: `00100 Rd imm8`.
    pub fn mov_imm8(&mut self, rd: u8, imm: u8)
        ensures
            final(self).code@ == old(self).code@ + half(0x2000 + rd % 8 * 256 + imm),
            final(self).code@.len() == old(self).code@.len() + 2,
    {
        self.emit16(0x2000 + (rd % 8) as u16 * 256 + imm as u16);
    }

    /// `MOVW Rd, #imm16`: writes the low half of `Rd` and clears the high half.
    pub fn movw(&mut self, rd: u8, imm16: u16)
        ensures
            final(self).code@ == old(self).code@ + wide_move(0xF240, rd as int, imm16 as int),
            final(self).code@.len() == old(self).code@.len() + 4,
    {
        self.emit32(
            0xF240 + (imm16 / 2048) % 2 * 1024 + imm16 / 4096,
            (imm16 / 256) % 8 * 4096 + (rd % 16) as u16 * 256 + imm16 % 256,
        );
    }

    /// `MOVT Rd, #imm16`: writes the high half of `Rd` and keeps the low half.
    pub fn movt(&mut self, rd: u8, imm16: u16)
        ensures
            final(self).code@ == old(self).code@ + wide_move(0xF2C0, rd as int, imm16 as int),
            final(self).code@.len() == old(self).code@.len() + 4,
    {
        self.emit32(
            0xF2C0 + (imm16 / 2048) % 2 * 1024 + imm16 / 4096,
            (imm16 / 256) % 8 * 4096 + (rd % 16) as u16 * 256 + imm16 % 256,
        );
    }

    /// `CMP Rn, #imm8`: `00101 Rn imm8`.
    pub fn cmp_imm8(&mut self, rn: u8, imm: u8)
        ensures
            final(self).code@ == old(self).code@ + half(0x2800 + rn % 8 * 256 + imm),
            final(self).code@.len() == old(self).code@.len() + 2,
    {
        self.emit16(0x2800 + u16::from(rn % 8) * 256 + u16::from(imm));
    }

    /// `MOV Rd, Rm`: `01000110 D Rm Rd`, where `D` is the high bit of `Rd`.
    pub fn mov_reg(&mut self, rd: u8, rm: u8)
        ensures
            final(self).code@ == old(self).code@ + half(
                0x4600 + (rd / 8) % 2 * 128 + rm % 16 * 8 + rd % 8,
            ),
            final(self).code@.len() == old(self).code@.len() + 2,
    {
        self.emit16(
            0x4600 + ((rd / 8) % 2) as u16 * 128 + (rm % 16) as u16 * 8 + (rd % 8) as u16,
        );
    }

    /// `ADD Rd, Rn, #imm3`: `0001110 Rn Rd imm3`.
    pub fn add_imm3(&mut self, rd: u8, rn: u8, imm: u8)
        ensures
            final(self).code@ == old(self).code@ + half(
                0x1C00 + rn % 8 * 64 + rd % 8 * 8 + imm % 8,
            ),
    {
        self.emit16(0x1C00 + (rn % 8) as u16 * 64 + (rd % 8) as u16 * 8 + (imm % 8) as u16);
    }

    /// `ADD Rd, Rn, Rm`: `0001100 Rm Rn Rd`.
    pub fn add_reg(&mut self, rd: u8, rn: u8, rm: u8)
        ensures
            final(self).code@ == old(self).code@ + half(
                0x1800 + rm % 8 * 64 + rn % 8 * 8 + rd % 8,
            ),
            final(self).code@.len() == old(self).code@.len() + 2,
    {
        self.emit16(0x1800 + (rm % 8) as u16 * 64 + (rn % 8) as u16 * 8 + (rd % 8) as u16);
    }

    /// `SUB Rd, Rn, Rm`: `0001101 Rm Rn Rd`.
    pub fn sub_reg(&mut self, rd: u8, rn: u8, rm: u8)
        ensures
            final(self).code@ == old(self).code@ + half(
                0x1A00 + rm % 8 * 64 + rn % 8 * 8 + rd % 8,
            ),
            final(self).code@.len() == old(self).code@.len() + 2,
    {
        self.emit16(0x1A00 + (rm % 8) as u16 * 64 + (rn % 8) as u16 * 8 + (rd % 8) as u16);
    }

    /// `MULS Rdm, Rn`: `0100001101 Rn Rdm`.
    pub fn muls(&mut self, rdm: u8, rn: u8)
        ensures
            final(self).code@ == old(self).code@ + half(0x4340 + rn % 8 * 8 + rdm % 8),
            final(self).code@.len() == old(self).code@.len() + 2,
    {
        self.emit16(0x4340 + (rn % 8) as u16 * 8 + (rdm % 8) as u16);
    }

    /// `STR Rt, [Rn, #imm5]`: `01100 imm5 Rn Rt`.
    pub fn str_imm5(&mut self, rt: u8, rn: u8, offset_words: u8)
        ensures
            final(self).code@ == old(self).code@ + half(
                0x6000 + offset_words % 32 * 64 + rn % 8 * 8 + rt % 8,
            ),
    {
        self.emit16(
            0x6000 + (offset_words % 32) as u16 * 64 + (rn % 8) as u16 * 8 + (rt % 8) as u16,
        );
    }

    /// `LDR Rt, [Rn, #imm5]`: `01101 imm5 Rn Rt`.
    pub fn ldr_imm5(&mut self, rt: u8, rn: u8, offset_words: u8)
        ensures
            final(self).code@ == old(self).code@ + half(
                0x6800 + offset_words % 32 * 64 + rn % 8 * 8 + rt % 8,
            ),
    {
        self.emit16(
            0x6800 + (offset_words % 32) as u16 * 64 + (rn % 8) as u16 * 8 + (rt % 8) as u16,
        );
    }

    /// `STR Rt, [Rn, Rm]`: `0101000 Rm Rn Rt`.
    pub fn str_reg(&mut self, rt: u8, rn: u8, rm: u8)
        ensures
            final(self).code@ == old(self).code@ + half(
                0x5000 + rm % 8 * 64 + rn % 8 * 8 + rt % 8,
            ),
    {
        self.emit16(0x5000 + (rm % 8) as u16 * 64 + (rn % 8) as u16 * 8 + (rt % 8) as u16);
    }

    /// `LDR Rt, [Rn, Rm]`: `0101100 Rm Rn Rt`.
    pub fn ldr_reg(&mut self, rt: u8, rn: u8, rm: u8)
        ensures
            final(self).code@ == old(self).code@ + half(
                0x5800 + rm % 8 * 64 + rn % 8 * 8 + rt % 8,
            ),
    {
        self.emit16(0x5800 + (rm % 8) as u16 * 64 + (rn % 8) as u16 * 8 + (rt % 8) as u16);
    }

    /// `LDR Rt, [PC, #imm8]`: `01001 Rt imm8`, a load from the literal pool.
    pub fn ldr_literal(&mut self, rt: u8, imm_words: u8)
        ensures
            final(self).code@ == old(self).code@ + half(0x4800 + rt % 8 * 256 + imm_words),
            final(self).code@.len() == old(self).code@.len() + 2,
    {
        self.emit16(0x4800 + (rt % 8) as u16 * 256 + imm_words as u16);
    }

    /// `ORRS Rd, Rm`: `0100001100 Rm Rd`, with four bits for `Rm`.
    pub fn orr_reg(&mut self, rd: u8, rm: u8)
        ensures
            final(self).code@ == old(self).code@ + half(0x4300 + rm % 16 * 8 + rd % 8),
    {
        self.emit16(0x4300 + (rm % 16) as u16 * 8 + (rd % 8) as u16);
    }

    /// `ANDS Rd, Rm`: `0100000000 Rm Rd`, with four bits for `Rm`.
    pub fn ands_reg(&mut self, rd: u8, rm: u8)
        ensures
            final(self).code@ == old(self).code@ + half(0x4000 + rm % 16 * 8 + rd % 8),
    {
        self.emit16(0x4000 + (rm % 16) as u16 * 8 + (rd % 8) as u16);
    }

    /// `EORS Rd, Rm`: `0100000001 Rm Rd`.
    pub fn eors_reg(&mut self, rd: u8, rm: u8)
        ensures
            final(self).code@ == old(self).code@ + half(0x4040 + rm % 8 * 8 + rd % 8),
    {
        self.emit16(0x4040 + (rm % 8) as u16 * 8 + (rd % 8) as u16);
    }

    /// `MVNS Rd, Rm`: `0100001111 Rm Rd`.
    pub fn mvns_reg(&mut self, rd: u8, rm: u8)
        ensures
            final(self).code@ == old(self).code@ + half(0x43C0 + rm % 8 * 8 + rd % 8),
    {
        self.emit16(0x43C0 + (rm % 8) as u16 * 8 + (rd % 8) as u16);
    }

    /// `B`: `11100 imm11`, a branch over instructions from the program counter,
    /// which is two instructions ahead.
    pub fn b(&mut self, offset_instructions: i16)
        ensures
            final(self).code@ == old(self).code@ + half(0xE000 + offset_instructions % 2048),
            final(self).code@.len() == old(self).code@.len() + 2,
    {
        let n: i32 = offset_instructions as i32 + 32768;
        let imm: u16 = (n % 2048) as u16;
        assert(n % 2048 == offset_instructions % 2048);
        self.emit16(0xE000 + imm);
    }

    /// A branch to `target`, in 16 bits where it is near enough.
    pub fn b_to(&mut self, target: usize)
        ensures
            final(self).code@ == old(self).code@ + branch_to(
                old(self).code@.len() as int,
                target as int,
            ),
            final(self).code@.len() >= old(self).code@.len(),
    {
        let delta: i128 = distance(self.code.len(), target);
        if -2048 <= delta && delta <= 2046 && (delta + 2048) % 2 == 0 {
            let imm: u16 = (((delta + 2048) / 2 + 1024) % 2048) as u16;
            assert(imm == (delta / 2) % 2048);
            self.emit16(0xE000 + imm);
        } else {
            assert(!(-2048 <= delta <= 2046 && delta % 2 == 0));
            let (hi, lo) = wide_branch_halves(delta);
            self.emit32(hi, lo);
        }
    }

    /// A conditional branch to `target`, in 16 bits where it is near enough.
    pub fn b_cond_to(&mut self, cond: u8, target: usize)
        ensures
            final(self).code@ == old(self).code@ + cond_branch_to(
                cond as int,
                old(self).code@.len() as int,
                target as int,
            ),
    {
        let delta: i128 = distance(self.code.len(), target);
        if -256 <= delta && delta <= 254 && (delta + 256) % 2 == 0 {
            let imm: u16 = (((delta + 256) / 2 + 128) % 256) as u16;
            assert(imm == (delta / 2) % 256);
            self.emit16(0xD000 + (cond % 16) as u16 * 256 + imm);
        } else {
            assert(!(-256 <= delta <= 254 && delta % 2 == 0));
            self.emit_skip(cond);
            let (hi, lo) = wide_branch_halves(delta - 2);
            self.emit32(hi, lo);
            assert(self.code@ =~= old(self).code@ + cond_branch_to(
                cond as int,
                old(self).code@.len() as int,
                target as int,
            ));
        }
    }

    /// The conditional branch over the next `B.W`.
    fn emit_skip(&mut self, cond: u8)
        ensures
            final(self).code@ == old(self).code@ + skip_wide(cond as int),
            final(self).code@.len() == old(self).code@.len() + 2,
    {
        let inv: u8 = if cond % 2 == 0 {
            cond + 1
        } else {
            cond - 1
        };
        self.emit16(0xD000 + (inv % 16) as u16 * 256 + 1);
    }

    /// Leaves room for a conditional branch forward and gives its position: the
    /// inverse condition over a `B.W` that is still to be patched.
    pub fn emit_cond_branch_placeholder(&mut self, cond: u8) -> (pos: usize)
        ensures
            pos == old(self).code@.len(),
            final(self).code@ == old(self).code@ + skip_wide(cond as int) + halves(
                0xF000,
                0x9000,
            ),
            final(self).code@.len() == old(self).code@.len() + 6,
    {
        let pos: usize = self.code.len();
        self.emit_skip(cond);
        self.emit32(0xF000, 0x9000);
        pos
    }

    /// Leads the conditional branch at `pos` to `target`.
    pub fn patch_cond_branch(&mut self, pos: usize, target: usize)
        requires
            pos + 6 <= old(self).code@.len(),
        ensures
            final(self).code@ == patched(old(self).code@, pos + 2, target as int),
            final(self).code@.len() == old(self).code@.len(),
    {
        let total: usize = self.code.len();
        assert(pos + 6 <= total);
        self.patch_b_w(pos + 2, target);
    }

    /// Leaves room for a branch forward and gives its position.
    pub fn emit_b_placeholder(&mut self) -> (pos: usize)
        ensures
            pos == old(self).code@.len(),
            final(self).code@ == old(self).code@ + halves(0xF000, 0x9000),
            final(self).code@.len() == old(self).code@.len() + 4,
    {
        let pos: usize = self.code.len();
        self.emit32(0xF000, 0x9000);
        pos
    }

    /// Leads the `B.W` at `pos` to `target`.
    pub fn patch_b_w(&mut self, pos: usize, target: usize)
        requires
            pos + 4 <= old(self).code@.len(),
        ensures
            final(self).code@ == patched(old(self).code@, pos as int, target as int),
            final(self).code@.len() == old(self).code@.len(),
    {
        let total: usize = self.code.len();
        let (hi, lo) = wide_branch_halves(distance(pos, target));
        self.code.set(pos, (hi % 256) as u8);
        self.code.set(pos + 1, (hi / 256) as u8);
        self.code.set(pos + 2, (lo % 256) as u8);
        self.code.set(pos + 3, (lo / 256) as u8);
        proof {
            let b = halves(hi as int, lo as int);
            lemma_half(hi);
            lemma_half(lo);
            assert(b =~= seq![
                (hi % 256) as u8,
                (hi / 256) as u8,
                (lo % 256) as u8,
                (lo / 256) as u8,
            ]);
            assert(self.code@ =~= overwritten(old(self).code@, pos as int, b));
        }
    }

    /// `BX Rm`: `010001110 Rm 000`.
    pub fn bx(&mut self, rm: u8)
        ensures
            final(self).code@ == old(self).code@ + half(0x4700 + rm % 16 * 8),
            final(self).code@.len() == old(self).code@.len() + 2,
    {
        self.emit16(0x4700 + (rm % 16) as u16 * 8);
    }

    /// `NOP`.
    pub fn nop(&mut self)
        ensures
            final(self).code@ == old(self).code@ + half(0xBF00),
            final(self).code@.len() == old(self).code@.len() + 2,
    {
        self.emit16(0xBF00);
    }

    /// `PUSH`: `1011010 M list`, where `M` stands for the link register.
    pub fn push(&mut self, regs: &[u8])
        requires
            listable(regs@, 14),
        ensures
            final(self).code@ == old(self).code@ + half(0xB400 + list_bits(regs@, 14)),
            final(self).code@.len() == old(self).code@.len() + 2,
    {
        let list: u16 = register_list(regs, 14);
        self.emit16(0xB400 + list);
    }

    /// `POP`: `1011110 P list`, where `P` stands for the program counter.
    pub fn pop(&mut self, regs: &[u8])
        requires
            listable(regs@, 15),
        ensures
            final(self).code@ == old(self).code@ + half(0xBC00 + list_bits(regs@, 15)),
            final(self).code@.len() == old(self).code@.len() + 2,
    {
        let list: u16 = register_list(regs, 15);
        self.emit16(0xBC00 + list);
    }

    /// An entry of the literal pool.
    pub fn literal(&mut self, value: u32)
        ensures
            final(self).code@ == old(self).code@ + le_bytes(value as nat, 4),
            final(self).code@.len() == old(self).code@.len() + 4,
    {
        push_le(&mut self.code, value as u64, 4);
        proof {
            lemma_le_len(value as nat, 4);
        }
    }
}

/// The two bytes of a 16-bit instruction.
pub proof fn lemma_half(n: u16)
    ensures
        half(n as int) == seq![(n % 256) as u8, (n / 256) as u8],
{
    let s = half(n as int);
    reveal_with_fuel(le_bytes, 3);
    assert((n as nat / 256) % 256 == n / 256);
    assert(s =~= seq![(n % 256) as u8, (n / 256) as u8]);
}

/// The bit `weight` where a register is in the list.
fn bit_in_list(regs: &[u8], r: u8, weight: u16) -> (b: u16)
    ensures
        b == list_bit(regs@, r, weight as int),
        b <= weight,
{
    let mut k: usize = 0;
    while k < regs.len()
        invariant
            k <= regs@.len(),
            forall|i: int| 0 <= i < k ==> regs@[i] != r,
        decreases regs@.len() - k,
    {
        if regs[k] == r {
            assert(regs@[k as int] == r);
            return weight;
        }
        k = k + 1;
    }
    0
}

/// The register list.
fn register_list(regs: &[u8], extra: u8) -> (list: u16)
    ensures
        list == list_bits(regs@, extra),
        list < 512,
{
    bit_in_list(regs, 0, 1) + bit_in_list(regs, 1, 2) + bit_in_list(regs, 2, 4) + bit_in_list(
        regs,
        3,
        8,
    ) + bit_in_list(regs, 4, 16) + bit_in_list(regs, 5, 32) + bit_in_list(regs, 6, 64)
        + bit_in_list(regs, 7, 128) + bit_in_list(regs, extra, 256)
}

// ---------------------------------------------------------------------------
// Laws
// ---------------------------------------------------------------------------

/// The 16-bit number at position `i`.
pub open spec fn half_at(b: Seq<u8>, i: int) -> int {
    b[i] + 256 * b[i + 1]
}

/// The position that a 16-bit branch at position `pos` leads to.
pub open spec fn branch_target(h: int, pos: int) -> int {
    let imm = h % 2048;
    pos + 4 + 2 * (if imm < 1024 {
        imm
    } else {
        imm - 2048
    })
}

/// The register of a `MOVW` or `MOVT` at position `i`.
pub open spec fn moved_register(b: Seq<u8>, i: int) -> int {
    (half_at(b, i + 2) / 256) % 16
}

/// The constant of a `MOVW` or `MOVT` at position `i`.
pub open spec fn moved_constant(b: Seq<u8>, i: int) -> int {
    let hi = half_at(b, i);
    let lo = half_at(b, i + 2);
    (hi % 16) * 4096 + (hi / 1024) % 2 * 2048 + (lo / 4096) % 8 * 256 + lo % 256
}

/// The two bytes of a half and their number.
pub proof fn lemma_half_at(n: int)
    requires
        0 <= n < 65536,
    ensures
        half(n).len() == 2,
        half_at(half(n), 0) == n,
{
    lemma_half(n as u16);
}

/// The numbers of two halves.
pub proof fn lemma_halves_at(hi: int, lo: int)
    requires
        0 <= hi < 65536,
        0 <= lo < 65536,
    ensures
        halves(hi, lo).len() == 4,
        half_at(halves(hi, lo), 0) == hi,
        half_at(halves(hi, lo), 2) == lo,
{
    lemma_half_at(hi);
    lemma_half_at(lo);
    let b = halves(hi, lo);
    assert(b[0] == half(hi)[0] && b[1] == half(hi)[1]);
    assert(b[2] == half(lo)[0] && b[3] == half(lo)[1]);
}

/// `MOVW` and `MOVT` carry their register and all sixteen bits of their
/// constant.
pub proof fn law_wide_moves_keep_their_constant(op: int, rd: int, imm: int)
    requires
        op == 0xF240 || op == 0xF2C0,
        0 <= rd < 16,
        0 <= imm < 65536,
    ensures
        wide_move(op, rd, imm).len() == 4,
        moved_register(wide_move(op, rd, imm), 0) == rd,
        moved_constant(wide_move(op, rd, imm), 0) == imm,
{
    let i4 = imm / 4096;
    let i1 = (imm / 2048) % 2;
    let i3 = (imm / 256) % 8;
    let i8 = imm % 256;
    let hi = op + i1 * 1024 + i4;
    let lo = i3 * 4096 + rd * 256 + i8;
    lemma_halves_at(hi, lo);
    assert(rd % 16 == rd);
    assert(hi % 16 == i4);
    assert((hi / 1024) % 2 == i1);
    assert((lo / 4096) % 8 == i3);
    assert((lo / 256) % 16 == rd);
    assert(lo % 256 == i8);
    assert(i4 * 4096 + i1 * 2048 + i3 * 256 + i8 == imm);
}

/// The position that the `B.W` at position `i` leads to.
pub open spec fn wide_target(b: Seq<u8>, i: int) -> int {
    let hi = half_at(b, i);
    let lo = half_at(b, i + 2);
    let s = (hi / 1024) % 2;
    let i1 = same_bit((lo / 8192) % 2, s);
    let i2 = same_bit((lo / 2048) % 2, s);
    i + 4 + (i1 * 0x80_0000 + i2 * 0x40_0000 + (hi % 1024) * 4096 + (lo % 2048) * 2 - s
        * 0x100_0000)
}

/// The fields of the upper half of a `B.W`.
proof fn lemma_upper_fields(s: int, m: int)
    requires
        0 <= s < 2,
        0 <= m < 1024,
    ensures
        ((0xF000 + s * 1024 + m) / 1024) % 2 == s,
        (0xF000 + s * 1024 + m) % 1024 == m,
{
}

/// The fields of the lower half of a `B.W`.
proof fn lemma_lower_fields(j1: int, j2: int, l: int)
    requires
        0 <= j1 < 2,
        0 <= j2 < 2,
        0 <= l < 2048,
    ensures
        ((0x9000 + j1 * 8192 + j2 * 2048 + l) / 8192) % 2 == j1,
        ((0x9000 + j1 * 8192 + j2 * 2048 + l) / 2048) % 2 == j2,
        (0x9000 + j1 * 8192 + j2 * 2048 + l) % 2048 == l,
{
}

/// A number below 2^24 is the sum of its fields.
proof fn lemma_field_sum(d: int)
    requires
        0 <= d,
        d % 2 == 0,
    ensures
        d % 0x100_0000 == (d / 0x80_0000) % 2 * 0x80_0000 + (d / 0x40_0000) % 2 * 0x40_0000 + (d
            / 4096) % 1024 * 4096 + (d / 2) % 2048 * 2,
{
    let e = d / 2;
    let f = d / 4096;
    let g = d / 0x40_0000;
    let h = d / 0x80_0000;
    assert(d == 2 * e);
    assert(f == e / 2048);
    assert(g == f / 1024);
    assert(h == g / 2);
    assert(e == 2048 * f + e % 2048);
    assert(f == 1024 * g + f % 1024);
    assert(g == 2 * h + g % 2);
    assert(h == 2 * (h / 2) + h % 2);
    assert(d == 0x100_0000 * (h / 2) + (h % 2 * 0x80_0000 + g % 2 * 0x40_0000 + f % 1024 * 4096 + e
        % 2048 * 2));
}

/// The sign and the low bits of a distance.
proof fn lemma_sign(delta: int)
    requires
        -0x100_0000 <= delta < 0x100_0000,
    ensures
        bits(delta) >= 0,
        bits(delta) % 2 == delta % 2,
        (bits(delta) / 0x100_0000) % 2 == (if delta < 0 {
            1int
        } else {
            0
        }),
        bits(delta) % 0x100_0000 == (if delta < 0 {
            delta + 0x100_0000
        } else {
            delta
        }),
{
    if delta >= 0 {
        assert(bits(delta) == delta);
    } else {
        assert(bits(delta) == delta + 0x1_0000_0000);
    }
}

/// The fields of a `B.W` over a distance that it can span give the distance
/// back.
proof fn lemma_wide_branch(delta: int)
    requires
        -0x100_0000 <= delta < 0x100_0000,
        delta % 2 == 0,
    ensures
        wide_branch(delta).len() == 4,
        wide_target(wide_branch(delta), 0) == 4 + delta,
{
    let d = bits(delta);
    let s = (d / 0x100_0000) % 2;
    let i1 = (d / 0x80_0000) % 2;
    let i2 = (d / 0x40_0000) % 2;
    let m = (d / 4096) % 1024;
    let l = (d / 2) % 2048;
    let j1 = same_bit(i1, s);
    let j2 = same_bit(i2, s);
    lemma_sign(delta);
    lemma_field_sum(d);
    lemma_upper_fields(s, m);
    lemma_lower_fields(j1, j2, l);
    lemma_halves_at(0xF000 + s * 1024 + m, 0x9000 + j1 * 8192 + j2 * 2048 + l);
}

/// A patched branch leads to its target, where the distance is even and within
/// sixteen megabytes; the rest of the code is as it was.
pub proof fn law_patched_branches_reach_their_target(code: Seq<u8>, pos: int, target: int)
    requires
        0 <= pos,
        pos + 4 <= code.len(),
        -0x100_0000 <= target - pos - 4 < 0x100_0000,
        (target - pos) % 2 == 0,
    ensures
        patched(code, pos, target).len() == code.len(),
        wide_target(patched(code, pos, target), pos) == target,
        forall|i: int|
            0 <= i < code.len() && !(pos <= i < pos + 4) ==> #[trigger] patched(
                code,
                pos,
                target,
            )[i] == code[i],
{
    let b = wide_branch(target - pos - 4);
    lemma_wide_branch(target - pos - 4);
    let c = patched(code, pos, target);
    assert(c[pos] == b[0] && c[pos + 1] == b[1] && c[pos + 2] == b[2] && c[pos + 3] == b[3]);
    assert(half_at(c, pos) == half_at(b, 0));
    assert(half_at(c, pos + 2) == half_at(b, 2));
}

/// A branch leads to its target, in the short and in the long form.
pub proof fn law_branches_reach_their_target(pos: int, target: int)
    requires
        -0x100_0000 <= target - pos - 4 < 0x100_0000,
        (target - pos) % 2 == 0,
    ensures
        ({
            let b = branch_to(pos, target);
            let delta = target - pos - 4;
            if -2048 <= delta <= 2046 {
                b.len() == 2 && half_at(b, 0) / 2048 == 28 && branch_target(half_at(b, 0), pos)
                    == target
            } else {
                b.len() == 4 && pos + wide_target(b, 0) == target
            }
        }),
{
    let delta = target - pos - 4;
    assert(delta % 2 == 0);
    if -2048 <= delta <= 2046 {
        let imm = (delta / 2) % 2048;
        lemma_half_at(0xE000 + imm);
        assert((0xE000 + imm) % 2048 == imm);
        assert((0xE000 + imm) / 2048 == 28);
    } else {
        lemma_wide_branch(delta);
    }
}

} // verus!
