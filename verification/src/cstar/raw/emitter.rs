//! Thumb-2 code for the ARM Cortex-M3.
//!
//! Variables live in the registers `r4` to `r7`; integers, assignments, sums,
//! differences and products, `while` and `if` are compiled.

use vstd::hash_map::StringHashMap;
use vstd::prelude::*;
use crate::ast::{Assignee, BinaryOp, Expr, IfStmt, Program, Stmt, TopLevel, WhileStmt};
use crate::cstar::raw::thumb::{
    ArmEmitter, branch_to, COND_EQ, half, half_at, halves, law_wide_moves_keep_their_constant,
    lemma_half_at, moved_constant, patched, skip_wide, wide_move,
};
use crate::text::same;

verus! {

/// Where flash memory begins.
pub const FLASH_ORIGIN: u32 = 0x0000_0000;

/// Where SRAM begins.
pub const SRAM_ORIGIN: u32 = 0x2000_0000;

/// The bytes of SRAM.
pub const SRAM_SIZE: u32 = 0x1_0000;

/// The end of SRAM, where the stack begins.
pub const STACK_TOP: u32 = 0x2001_0000;

// ---------------------------------------------------------------------------
// What programs compile to
// ---------------------------------------------------------------------------

/// The state of compilation: the code, the registers of the variables, and the
/// register of the next variable.
pub struct Fw {
    pub code: Seq<u8>,
    pub regs: Map<Seq<char>, u8>,
    pub next: u8,
}

impl Fw {
    /// The same state with another code.
    pub open spec fn with(self, code: Seq<u8>) -> Fw {
        Fw { code, ..self }
    }
}

/// The code that loads a constant: the shortest of `MOVS`, `MOVW`, and `MOVW`
/// with `MOVT`.
pub open spec fn load_constant(code: Seq<u8>, v: i64, rd: u8) -> Seq<u8> {
    if 0 <= v <= 255 {
        code + half(0x2000 + rd % 8 * 256 + v)
    } else if 0 <= v <= 65535 {
        code + wide_move(0xF240, rd as int, v as int)
    } else {
        let bits = v as int % 0x1_0000_0000;
        let low = code + wide_move(0xF240, rd as int, bits % 65536);
        if bits / 65536 != 0 {
            low + wide_move(0xF2C0, rd as int, bits / 65536)
        } else {
            low
        }
    }
}

/// The register behind `rd`, around after the seventh.
pub open spec fn next_temp(rd: u8) -> u8 {
    if rd < 7 {
        (rd + 1) as u8
    } else {
        0
    }
}

/// The code behind an expression with its value in `rd`.
pub open spec fn expr_fw(code: Seq<u8>, regs: Map<Seq<char>, u8>, e: Expr, rd: u8) -> Seq<u8>
    decreases e,
{
    let t = next_temp(rd);
    match e {
        Expr::Integer(i) => load_constant(code, i.value, rd),
        Expr::Identifier(id) => if regs.contains_key(id.name@) && regs[id.name@] != rd {
            code + half(0x4600 + (rd / 8) % 2 * 128 + regs[id.name@] % 16 * 8 + rd % 8)
        } else {
            code
        },
        Expr::Binary(b) => match b.operator {
            BinaryOp::Add => expr_fw(expr_fw(code, regs, *b.left, rd), regs, *b.right, t) + half(
                0x1800 + t % 8 * 64 + rd % 8 * 8 + rd % 8,
            ),
            BinaryOp::Sub => expr_fw(expr_fw(code, regs, *b.left, rd), regs, *b.right, t) + half(
                0x1A00 + t % 8 * 64 + rd % 8 * 8 + rd % 8,
            ),
            BinaryOp::Mul => expr_fw(expr_fw(code, regs, *b.left, rd), regs, *b.right, t) + half(
                0x4340 + t % 8 * 8 + rd % 8,
            ),
            _ => code + half(0x2000 + rd % 8 * 256 + 0),
        },
        Expr::Cast(c) => expr_fw(code, regs, *c.expr, rd),
        _ => code + half(0x2000 + rd % 8 * 256 + 0),
    }
}

/// The code behind a condition: its value compared with zero, and a branch
/// forward where it is zero.
pub open spec fn cond_fw(st: Fw, e: Expr) -> Fw {
    st.with(
        expr_fw(st.code, st.regs, e, 0) + half(0x2800) + skip_wide(0) + halves(0xF000, 0x9000),
    )
}

/// The state in which a variable has a register.
pub open spec fn var_fw(st: Fw, n: Seq<char>) -> Fw {
    if st.regs.contains_key(n) {
        st
    } else {
        Fw {
            regs: st.regs.insert(n, st.next),
            next: if st.next >= 7 {
                4
            } else {
                (st.next + 1) as u8
            },
            ..st
        }
    }
}

/// The state behind a statement.
pub open spec fn stmt_fw(st: Fw, s: Stmt) -> Fw
    decreases s,
{
    match s {
        Stmt::Assign(a) => if a.targets@.len() > 0 {
            match a.targets@[0] {
                Assignee::Identifier(id) => {
                    let s1 = var_fw(st, id.name@);
                    s1.with(expr_fw(s1.code, s1.regs, a.value, s1.regs[id.name@]))
                },
                _ => st,
            }
        } else {
            st
        },
        Stmt::While(w) => {
            let s1 = cond_fw(st, w.condition);
            let s2 = stmts_fw(s1, w.body@, w.body@.len());
            let c = s2.code + branch_to(s2.code.len() as int, st.code.len() as int);
            s2.with(patched(c, s1.code.len() - 4, c.len() as int))
        },
        Stmt::If(i) => if_fw(st, i),
        Stmt::Return(r) => st.with(
            (if r.values@.len() > 0 {
                expr_fw(st.code, st.regs, r.values@[0], 0)
            } else {
                st.code + half(0x2000)
            }) + half(0x4770),
        ),
        _ => st,
    }
}

/// The state behind the first `k` statements.
pub open spec fn stmts_fw(st: Fw, ss: Seq<Stmt>, k: nat) -> Fw
    decreases ss, k,
{
    if k == 0 || k > ss.len() {
        st
    } else {
        stmt_fw(stmts_fw(st, ss, (k - 1) as nat), ss[k - 1])
    }
}

/// The state within an `if`: where the last branch forward stands that is
/// still to be patched, and where the branches to the end stand.
pub struct Arms {
    pub st: Fw,
    pub pending: int,
    pub ends: Seq<int>,
}

/// The state with room for a branch to the end, and the pending branch leading
/// behind it.
pub open spec fn arm_end(a: Arms) -> Arms {
    let c = a.st.code + halves(0xF000, 0x9000);
    Arms {
        st: a.st.with(patched(c, a.pending, c.len() as int)),
        pending: a.pending,
        ends: a.ends.push(a.st.code.len() as int),
    }
}

/// The state behind the first `k` `elif` branches.
pub open spec fn elif_fw(a: Arms, cs: Seq<(Expr, Vec<Stmt>)>, k: nat) -> Arms
    decreases cs, k,
{
    if k == 0 || k > cs.len() {
        a
    } else {
        let p = arm_end(elif_fw(a, cs, (k - 1) as nat));
        let s1 = cond_fw(p.st, cs[k - 1].0);
        Arms {
            st: stmts_fw(s1, cs[k - 1].1@, cs[k - 1].1@.len()),
            pending: s1.code.len() - 4,
            ends: p.ends,
        }
    }
}

/// The code with the first `k` branches leading to `target`.
pub open spec fn all_patched(code: Seq<u8>, ends: Seq<int>, target: int, k: nat) -> Seq<u8>
    decreases k,
{
    if k == 0 || k > ends.len() {
        code
    } else {
        patched(all_patched(code, ends, target, (k - 1) as nat), ends[k - 1], target)
    }
}

/// The state behind an `if`.
pub open spec fn if_fw(st: Fw, i: IfStmt) -> Fw
    decreases i,
{
    let s1 = cond_fw(st, i.condition);
    let first = Arms {
        st: stmts_fw(s1, i.then_body@, i.then_body@.len()),
        pending: s1.code.len() - 4,
        ends: Seq::empty(),
    };
    let a = elif_fw(first, i.elif_chain@, i.elif_chain@.len());
    match i.else_body {
        Some(b) => {
            let p = arm_end(a);
            let s2 = stmts_fw(p.st, b@, b@.len());
            s2.with(all_patched(s2.code, p.ends, s2.code.len() as int, p.ends.len()))
        },
        None => {
            let c = patched(a.st.code, a.pending, a.st.code.len() as int);
            a.st.with(all_patched(c, a.ends, c.len() as int, a.ends.len()))
        },
    }
}

/// Whether the declaration is the main function, or a statement.
pub open spec fn is_main_part(d: TopLevel) -> bool {
    match d {
        TopLevel::FnDef(f) => f.name.name@ == "main"@,
        TopLevel::Statement(_) => true,
        _ => false,
    }
}

/// The state behind the main part of a program: the first `main` function or
/// top-level statement at or behind declaration `i`, whichever comes first.
pub open spec fn main_fw(st: Fw, ds: Seq<TopLevel>, i: int) -> Fw
    decreases ds.len() - i,
{
    if i < 0 || i >= ds.len() {
        st
    } else if !is_main_part(ds[i]) {
        main_fw(st, ds, i + 1)
    } else {
        match ds[i] {
            TopLevel::FnDef(f) => stmts_fw(st, f.body@, f.body@.len()),
            TopLevel::Statement(s) => stmt_fw(st, s),
            _ => st,
        }
    }
}

/// The code of a program: its main part, and a return of zero.
pub open spec fn program_fw(p: Program) -> Seq<u8> {
    main_fw(
        Fw { code: Seq::empty(), regs: Map::empty(), next: 4 },
        p.declarations@,
        0,
    ).code + half(0x2000) + half(0x4770)
}

// ---------------------------------------------------------------------------
// The compiler
// ---------------------------------------------------------------------------

/// The program being compiled.
struct Compiler {
    emitter: ArmEmitter,
    regs: StringHashMap<u8>,
    next: u8,
}

impl View for Compiler {
    type V = Fw;

    closed spec fn view(&self) -> Fw {
        Fw { code: self.emitter.code@, regs: self.regs@, next: self.next }
    }
}

/// Loads a constant.
fn emit_constant(e: &mut ArmEmitter, v: i64, rd: u8)
    ensures
        final(e).code@ == load_constant(old(e).code@, v, rd),
        final(e).code@.len() >= old(e).code@.len(),
{
    if 0 <= v && v <= 255 {
        e.mov_imm8(rd, v as u8);
    } else if 0 <= v && v <= 65535 {
        e.movw(rd, v as u16);
    } else {
        let wide: i128 = if v >= 0 {
            v as i128
        } else {
            v as i128 + 0x1_0000_0000_0000_0000
        };
        let bits: u64 = (wide % 0x1_0000_0000) as u64;
        assert(bits == v % 0x1_0000_0000);
        e.movw(rd, (bits % 65536) as u16);
        let hi: u16 = (bits / 65536) as u16;
        if hi != 0 {
            e.movt(rd, hi);
        }
    }
}

/// The register behind `rd`.
fn temp_behind(rd: u8) -> (t: u8)
    ensures
        t == next_temp(rd),
{
    if rd < 7 {
        rd + 1
    } else {
        0
    }
}

impl Compiler {
    /// Compiles an expression, with its value in `rd`.
    fn compile_expr(&mut self, e: &Expr, rd: u8)
        ensures
            final(self)@ == old(self)@.with(expr_fw(old(self)@.code, old(self)@.regs, *e, rd)),
            final(self)@.code.len() >= old(self)@.code.len(),
        decreases e,
    {
        match e {
            Expr::Integer(i) => {
                emit_constant(&mut self.emitter, i.value, rd);
            },
            Expr::Identifier(id) => match self.regs.get(id.name.as_str()) {
                Some(r) => {
                    let reg: u8 = *r;
                    if reg != rd {
                        self.emitter.mov_reg(rd, reg);
                    }
                },
                None => {},
            },
            Expr::Binary(b) => {
                let t: u8 = temp_behind(rd);
                match b.operator {
                    BinaryOp::Add => {
                        self.compile_expr(&b.left, rd);
                        self.compile_expr(&b.right, t);
                        self.emitter.add_reg(rd, rd, t);
                    },
                    BinaryOp::Sub => {
                        self.compile_expr(&b.left, rd);
                        self.compile_expr(&b.right, t);
                        self.emitter.sub_reg(rd, rd, t);
                    },
                    BinaryOp::Mul => {
                        self.compile_expr(&b.left, rd);
                        self.compile_expr(&b.right, t);
                        self.emitter.muls(rd, t);
                    },
                    _ => {
                        self.emitter.mov_imm8(rd, 0);
                    },
                }
            },
            Expr::Cast(c) => {
                self.compile_expr(&c.expr, rd);
            },
            _ => {
                self.emitter.mov_imm8(rd, 0);
            },
        }
    }

    /// Compiles a condition, and gives the position of the branch forward.
    fn compile_cond(&mut self, e: &Expr) -> (pos: usize)
        ensures
            final(self)@ == cond_fw(old(self)@, *e),
            pos + 6 == final(self)@.code.len(),
            final(self)@.code.len() >= old(self)@.code.len(),
    {
        self.compile_expr(e, 0);
        self.emitter.cmp_imm8(0, 0);
        self.emitter.emit_cond_branch_placeholder(COND_EQ)
    }

    /// Gives a variable a register.
    fn var_reg(&mut self, n: &str) -> (r: u8)
        ensures
            final(self)@ == var_fw(old(self)@, n@),
            r == final(self)@.regs[n@],
    {
        match self.regs.get(n) {
            Some(r) => {
                return *r;
            },
            None => {},
        }
        let r: u8 = self.next;
        self.next = if r >= 7 {
            4
        } else {
            r + 1
        };
        self.regs.insert(n.to_owned(), r);
        r
    }

    /// Compiles statements.
    fn compile_stmts(&mut self, ss: &Vec<Stmt>)
        ensures
            final(self)@ == stmts_fw(old(self)@, ss@, ss@.len()),
            final(self)@.code.len() >= old(self)@.code.len(),
        decreases ss@, 0nat,
    {
        let mut k: usize = 0;
        while k < ss.len()
            invariant
                k <= ss@.len(),
                self@ == stmts_fw(old(self)@, ss@, k as nat),
                self@.code.len() >= old(self)@.code.len(),
            decreases ss@.len() - k,
        {
            self.compile_stmt(&ss[k]);
            k = k + 1;
        }
    }

    /// Compiles a statement.
    fn compile_stmt(&mut self, s: &Stmt)
        ensures
            final(self)@ == stmt_fw(old(self)@, *s),
            final(self)@.code.len() >= old(self)@.code.len(),
        decreases s, 2nat,
    {
        match s {
            Stmt::Assign(a) => {
                if a.targets.len() > 0 {
                    match &a.targets[0] {
                        Assignee::Identifier(id) => {
                            let r: u8 = self.var_reg(id.name.as_str());
                            self.compile_expr(&a.value, r);
                        },
                        _ => {},
                    }
                }
            },
            Stmt::While(w) => {
                self.compile_while(w);
            },
            Stmt::If(i) => {
                self.compile_if(i);
            },
            Stmt::Return(r) => {
                if r.values.len() > 0 {
                    self.compile_expr(&r.values[0], 0);
                } else {
                    self.emitter.mov_imm8(0, 0);
                }
                self.emitter.bx(14);
            },
            _ => {},
        }
    }

    /// Compiles a `while`.
    fn compile_while(&mut self, w: &WhileStmt)
        ensures
            final(self)@ == stmt_fw(old(self)@, Stmt::While(*w)),
            final(self)@.code.len() >= old(self)@.code.len(),
        decreases w, 1nat,
    {
        let start: usize = self.emitter.code.len();
        let pos: usize = self.compile_cond(&w.condition);
        self.compile_stmts(&w.body);
        self.emitter.b_to(start);
        let end: usize = self.emitter.code.len();
        self.emitter.patch_cond_branch(pos, end);
    }

    /// Leaves room for a branch to the end, and leads the pending branch behind
    /// it.
    fn end_arm(&mut self, pos: usize) -> (end: usize)
        requires
            pos + 6 <= old(self)@.code.len(),
        ensures
            forall|ends: Seq<int>| #[trigger]
                arm_end((Arms { st: old(self)@, pending: pos + 2, ends })) == (Arms {
                    st: final(self)@,
                    pending: pos + 2,
                    ends: ends.push(end as int),
                }),
            end + 4 == final(self)@.code.len(),
            final(self)@.code.len() == old(self)@.code.len() + 4,
    {
        let end: usize = self.emitter.emit_b_placeholder();
        let here: usize = self.emitter.code.len();
        self.emitter.patch_cond_branch(pos, here);
        end
    }

    /// Compiles an `if`.
    fn compile_if(&mut self, i: &IfStmt)
        ensures
            final(self)@ == if_fw(old(self)@, *i),
            final(self)@.code.len() >= old(self)@.code.len(),
        decreases i, 1nat,
    {
        let mut pos: usize = self.compile_cond(&i.condition);
        let mut ends: Vec<usize> = Vec::new();
        self.compile_stmts(&i.then_body);
        let ghost first = Arms { st: self@, pending: pos + 2, ends: Seq::empty() };
        let mut k: usize = 0;
        assert(positions(ends@) =~= Seq::<int>::empty());
        while k < i.elif_chain.len()
            invariant
                k <= i.elif_chain@.len(),
                (Arms { st: self@, pending: pos + 2, ends: positions(ends@) }) == elif_fw(
                    first,
                    i.elif_chain@,
                    k as nat,
                ),
                pos + 6 <= self@.code.len(),
                self@.code.len() >= old(self)@.code.len(),
                forall|j: int| 0 <= j < ends@.len() ==> #[trigger] ends@[j] + 4 <= self@.code.len(),
            decreases i.elif_chain@.len() - k,
        {
            let ghost before = ends@;
            let end: usize = self.end_arm(pos);
            ends.push(end);
            assert(positions(ends@) =~= positions(before).push(end as int));
            pos = self.compile_cond(&i.elif_chain[k].0);
            self.compile_stmts(&i.elif_chain[k].1);
            k = k + 1;
        }
        match &i.else_body {
            Some(b) => {
                let ghost before = ends@;
                let end: usize = self.end_arm(pos);
                ends.push(end);
                assert(positions(ends@) =~= positions(before).push(end as int));
                self.compile_stmts(b);
            },
            None => {
                let here: usize = self.emitter.code.len();
                self.emitter.patch_cond_branch(pos, here);
            },
        }
        let target: usize = self.emitter.code.len();
        let ghost code = self@.code;
        let ghost st = self@;
        let mut j: usize = 0;
        while j < ends.len()
            invariant
                j <= ends@.len(),
                target == code.len(),
                self@ == st.with(all_patched(code, positions(ends@), target as int, j as nat)),
                self@.code.len() == code.len(),
                forall|l: int| 0 <= l < ends@.len() ==> #[trigger] ends@[l] + 4 <= code.len(),
            decreases ends@.len() - j,
        {
            self.emitter.patch_b_w(ends[j], target);
            j = j + 1;
        }
    }
}

/// Positions as numbers.
pub open spec fn positions(v: Seq<usize>) -> Seq<int> {
    Seq::new(v.len(), |i: int| v[i] as int)
}

/// Whether the declaration is the main function, or a statement.
fn main_part(d: &TopLevel) -> (r: bool)
    ensures
        r == is_main_part(*d),
{
    match d {
        TopLevel::FnDef(f) => same(f.name.name.as_str(), "main"),
        TopLevel::Statement(_) => true,
        _ => false,
    }
}

/// Compiles a program to Thumb-2 code.
pub fn compile_program_to_arm(program: &Program) -> (r: Vec<u8>)
    ensures
        r@ == program_fw(*program),
{
    let mut c = Compiler { emitter: ArmEmitter::new(), regs: StringHashMap::new(), next: 4 };
    let ghost st = c@;
    let ds = &program.declarations;
    let mut i: usize = 0;
    while i < ds.len() && !main_part(&ds[i])
        invariant
            ds@ == program.declarations@,
            i <= ds@.len(),
            main_fw(st, ds@, 0) == main_fw(st, ds@, i as int),
        decreases ds@.len() - i,
    {
        i = i + 1;
    }
    if i < ds.len() {
        match &ds[i] {
            TopLevel::FnDef(f) => {
                c.compile_stmts(&f.body);
            },
            TopLevel::Statement(s) => {
                c.compile_stmt(s);
            },
            _ => {},
        }
    }
    c.emitter.mov_imm8(0, 0);
    c.emitter.bx(14);
    c.emitter.code
}

/// The constant that instructions load into a register: `MOVS`, `MOVW`, or
/// `MOVW` and `MOVT`.
pub open spec fn loaded_constant(b: Seq<u8>) -> int {
    if b.len() == 2 {
        half_at(b, 0) % 256
    } else if b.len() == 4 {
        moved_constant(b, 0)
    } else {
        moved_constant(b, 0) + 65536 * moved_constant(b, 4)
    }
}

/// The low byte of a sum.
proof fn lemma_low_byte(base: int, v: int)
    requires
        base % 256 == 0,
        0 <= v < 256,
    ensures
        (base + v) % 256 == v,
{
}

/// The constants of two instructions, one behind the other.
proof fn lemma_two_moves(w: Seq<u8>, t: Seq<u8>)
    requires
        w.len() == 4,
        t.len() == 4,
    ensures
        moved_constant(w + t, 0) == moved_constant(w, 0),
        moved_constant(w + t, 4) == moved_constant(t, 0),
{
    let b = w + t;
    assert(half_at(b, 0) == half_at(w, 0));
    assert(half_at(b, 2) == half_at(w, 2));
    assert(half_at(b, 4) == half_at(t, 0));
    assert(half_at(b, 6) == half_at(t, 2));
}

/// No constant is cut off: what is loaded is the constant in 32-bit two's
/// complement, in two bytes up to 255, in four up to 65535, and in eight at
/// most.
pub proof fn law_constants_are_not_truncated(v: i64, rd: u8)
    requires
        rd < 8,
    ensures
        ({
            let b = load_constant(Seq::empty(), v, rd);
            &&& loaded_constant(b) == v as int % 0x1_0000_0000
            &&& 0 <= v <= 255 ==> b.len() == 2
            &&& 255 < v <= 65535 ==> b.len() == 4
            &&& b.len() <= 8
        }),
{
    let none = Seq::<u8>::empty();
    let b = load_constant(none, v, rd);
    if 0 <= v <= 255 {
        let h = half(0x2000 + rd % 8 * 256 + v);
        assert(none + h =~= h);
        lemma_half_at(0x2000 + rd % 8 * 256 + v);
        lemma_low_byte(0x2000 + rd % 8 * 256, v as int);
    } else if 0 <= v <= 65535 {
        let w = wide_move(0xF240, rd as int, v as int);
        assert(none + w =~= w);
        law_wide_moves_keep_their_constant(0xF240, rd as int, v as int);
    } else {
        let bits = v as int % 0x1_0000_0000;
        let w = wide_move(0xF240, rd as int, bits % 65536);
        assert(none + w =~= w);
        law_wide_moves_keep_their_constant(0xF240, rd as int, bits % 65536);
        if bits / 65536 != 0 {
            let t = wide_move(0xF2C0, rd as int, bits / 65536);
            law_wide_moves_keep_their_constant(0xF2C0, rd as int, bits / 65536);
            assert(b =~= w + t);
            lemma_two_moves(w, t);
        }
    }
}

} // verus!
