//! What the entry and the exit of a function do to the stack.
//!
//! A processor runs the lines that save and restore registers. The laws say that
//! the exit of a function undoes its entry.

use vstd::prelude::*;
use crate::cstar::raw::arm_model::{
    self, ceil_to, pool_len, pool_list, reg_prefix, restore_pairs, save_pairs, stack_align,
};
use crate::cstar::raw::arm_run::{lemma_numbered, lemma_pool as lemma_arm_pool};
use crate::cstar::raw::lines::{ins1, label_line};
use crate::cstar::raw::model::Func;
use crate::cstar::raw::x86_model::{self, restore_regs, save_regs};
use crate::cstar::raw::x86_run::lemma_pool;
use crate::text::{dec, joined};

verus! {

/// A line of the entry or the exit of a function.
pub enum Line {
    /// `push r`
    Push(Seq<char>),
    /// `pop r`
    Pop(Seq<char>),
    /// `stp a, b, [sp, #-16]!`
    PushPair(Seq<char>, Seq<char>),
    /// `ldp a, b, [sp], #16`
    PopPair(Seq<char>, Seq<char>),
    /// `str a, [sp, #-16]!`
    PushOne(Seq<char>),
    /// `ldr a, [sp], #16`
    PopOne(Seq<char>),
    /// `push {a, b, ...}`
    PushList(Seq<Seq<char>>),
    /// `pop {a, b, ...}`
    PopList(Seq<Seq<char>>),
    /// `mov r, sp`, by the name of the stack pointer
    Mark(Seq<char>, Seq<char>),
    /// `sub rsp, n`
    Down(nat),
    /// `add rsp, n`
    Up(nat),
    /// `sub sp, sp, #n`
    DownBy(nat),
    /// `add sp, sp, #n`
    UpBy(nat),
    /// `label:`
    Label(Seq<char>),
    /// `ret`
    Ret,
}

/// The text of a line.
pub open spec fn line_text(l: Line) -> Seq<char> {
    match l {
        Line::Push(r) => "    "@ + "push"@ + " "@ + r + "\n"@,
        Line::Pop(r) => "    "@ + "pop"@ + " "@ + r + "\n"@,
        Line::PushPair(a, b) => "    stp "@ + a + ", "@ + b + ", [sp, #-16]!\n"@,
        Line::PopPair(a, b) => "    ldp "@ + a + ", "@ + b + ", [sp], #16\n"@,
        Line::PushOne(a) => "    str "@ + a + ", [sp, #-16]!\n"@,
        Line::PopOne(a) => "    ldr "@ + a + ", [sp], #16\n"@,
        Line::PushList(rs) => "    push {"@ + joined(rs, ", "@) + "}\n"@,
        Line::PopList(rs) => "    pop {"@ + joined(rs, ", "@) + "}\n"@,
        Line::Mark(r, sp) => "    mov "@ + r + ", "@ + sp + "\n"@,
        Line::Down(n) => "    sub rsp, "@ + dec(n) + "\n"@,
        Line::Up(n) => "    add rsp, "@ + dec(n) + "\n"@,
        Line::DownBy(n) => "    sub sp, sp, #"@ + dec(n) + "\n"@,
        Line::UpBy(n) => "    add sp, sp, #"@ + dec(n) + "\n"@,
        Line::Label(n) => n + ":\n"@,
        Line::Ret => "    ret\n"@,
    }
}

/// The text with more lines.
pub open spec fn with_lines(o: Seq<char>, ls: Seq<Line>) -> Seq<char>
    decreases ls.len(),
{
    if ls.len() == 0 {
        o
    } else {
        with_lines(o, ls.drop_last()) + line_text(ls.last())
    }
}

/// Registers, the stack pointer, memory by its addresses, and whether the function
/// has returned.
pub struct Machine {
    pub regs: Map<Seq<char>, int>,
    pub sp: int,
    pub mem: Map<int, int>,
    pub done: bool,
}

/// The memory with registers in it, from address `at` on.
pub open spec fn put(mem: Map<int, int>, regs: Map<Seq<char>, int>, rs: Seq<Seq<char>>, at: int, word: int) -> Map<int, int>
    decreases rs.len(),
{
    if rs.len() == 0 {
        mem
    } else {
        put(mem, regs, rs.drop_last(), at, word).insert(
            at + word * (rs.len() - 1),
            regs[rs.last()],
        )
    }
}

/// The registers with memory in them, from address `at` on.
pub open spec fn got(regs: Map<Seq<char>, int>, mem: Map<int, int>, rs: Seq<Seq<char>>, at: int, word: int) -> Map<Seq<char>, int>
    decreases rs.len(),
{
    if rs.len() == 0 {
        regs
    } else {
        got(regs, mem, rs.drop_last(), at, word).insert(
            rs.last(),
            mem[at + word * (rs.len() - 1)],
        )
    }
}

/// Registers go to the stack, in `bytes` bytes.
pub open spec fn saved(m: Machine, rs: Seq<Seq<char>>, bytes: int, word: int) -> Machine {
    Machine { sp: m.sp - bytes, mem: put(m.mem, m.regs, rs, m.sp - bytes, word), ..m }
}

/// Registers come from the stack, from `bytes` bytes.
pub open spec fn loaded(m: Machine, rs: Seq<Seq<char>>, bytes: int, word: int) -> Machine {
    Machine { sp: m.sp + bytes, regs: got(m.regs, m.mem, rs, m.sp, word), ..m }
}

/// What a line does.
pub open spec fn effect(m: Machine, l: Line) -> Machine {
    match l {
        Line::Push(r) => saved(m, seq![r], 8, 8),
        Line::Pop(r) => loaded(m, seq![r], 8, 8),
        Line::PushPair(a, b) => saved(m, seq![a, b], 16, 8),
        Line::PopPair(a, b) => loaded(m, seq![a, b], 16, 8),
        Line::PushOne(a) => saved(m, seq![a], 16, 8),
        Line::PopOne(a) => loaded(m, seq![a], 16, 8),
        Line::PushList(rs) => saved(m, rs, 4 * rs.len() as int, 4),
        Line::PopList(rs) => loaded(m, rs, 4 * rs.len() as int, 4),
        Line::Mark(r, sp) => Machine { regs: m.regs.insert(r, m.sp), ..m },
        Line::Down(n) | Line::DownBy(n) => Machine { sp: m.sp - n, ..m },
        Line::Up(n) | Line::UpBy(n) => Machine { sp: m.sp + n, ..m },
        Line::Label(_) => m,
        Line::Ret => Machine { done: true, ..m },
    }
}

/// The state behind lines.
pub open spec fn after(m: Machine, ls: Seq<Line>) -> Machine
    decreases ls.len(),
{
    if ls.len() == 0 {
        m
    } else {
        effect(after(m, ls.drop_last()), ls.last())
    }
}

/// The text `to` goes on from `from` by lines that lead from `m` to `n`.
pub open spec fn leads(from: Seq<char>, to: Seq<char>, m: Machine, n: Machine) -> bool {
    exists|ls: Seq<Line>| to == #[trigger] with_lines(from, ls) && after(m, ls) == n
}

/// No line.
proof fn lemma_start(x: Seq<char>, m: Machine)
    ensures
        leads(x, x, m, m),
{
    let ls = Seq::<Line>::empty();
    assert(with_lines(x, ls) == x);
}

/// One more line.
proof fn lemma_line(from: Seq<char>, to: Seq<char>, m: Machine, n: Machine, l: Line) -> (o: Machine)
    requires
        leads(from, to, m, n),
    ensures
        leads(from, to + line_text(l), m, o),
        o == effect(n, l),
{
    let ls = choose|ls: Seq<Line>| to == #[trigger] with_lines(from, ls) && after(m, ls) == n;
    let all = ls.push(l);
    assert(all.drop_last() =~= ls);
    assert(with_lines(from, all) == to + line_text(l));
    effect(n, l)
}

/// A line in three parts.
proof fn lemma_parts(o: Seq<char>, a: Seq<char>, b: Seq<char>, c: Seq<char>)
    ensures
        o + a + b + c == o + (a + b + c),
{
    assert(o + a + b + c =~= o + (a + b + c));
}

/// One register on the stack and from it.
proof fn lemma_one(m: Machine, r: Seq<char>, bytes: int)
    ensures
        saved(m, seq![r], bytes, 8).mem == m.mem.insert(m.sp - bytes, m.regs[r]),
        loaded(m, seq![r], bytes, 8).regs == m.regs.insert(r, m.mem[m.sp]),
{
    let rs = seq![r];
    assert(rs.drop_last() =~= Seq::<Seq<char>>::empty());
    reveal_with_fuel(put, 2);
    reveal_with_fuel(got, 2);
}

/// Two registers on the stack and from it.
proof fn lemma_pair(m: Machine, a: Seq<char>, b: Seq<char>)
    ensures
        saved(m, seq![a, b], 16, 8).mem == m.mem.insert(m.sp - 16, m.regs[a]).insert(
            m.sp - 8,
            m.regs[b],
        ),
        loaded(m, seq![a, b], 16, 8).regs == m.regs.insert(a, m.mem[m.sp]).insert(
            b,
            m.mem[m.sp + 8],
        ),
{
    let rs = seq![a, b];
    assert(rs.drop_last() =~= seq![a]);
    assert(seq![a].drop_last() =~= Seq::<Seq<char>>::empty());
    reveal_with_fuel(put, 3);
    reveal_with_fuel(got, 3);
}

// ---------------------------------------------------------------------------
// x86_64
// ---------------------------------------------------------------------------

/// The lines at the entry and the exit of a function.
proof fn lemma_x86_text(o: Seq<char>)
    ensures
        o + "    push rbp\n    mov rbp, rsp\n    push r12\n"@ == o + line_text(Line::Push("rbp"@))
            + line_text(Line::Mark("rbp"@, "rsp"@)) + line_text(Line::Push("r12"@)),
        o + "    pop r12\n    pop rbp\n    ret\n\n"@ == o + line_text(Line::Pop("r12"@)) + line_text(
            Line::Pop("rbp"@),
        ) + line_text(Line::Ret) + "\n"@,
{
    reveal_strlit("    push rbp\n    mov rbp, rsp\n    push r12\n");
    reveal_strlit("    pop r12\n    pop rbp\n    ret\n\n");
    reveal_strlit("    ");
    reveal_strlit("push");
    reveal_strlit("pop");
    reveal_strlit(" ");
    reveal_strlit("rbp");
    reveal_strlit("r12");
    reveal_strlit("rsp");
    reveal_strlit("    mov ");
    reveal_strlit(", ");
    reveal_strlit("    ret\n");
    reveal_strlit("\n");
    let a = line_text(Line::Push("rbp"@)) + line_text(Line::Mark("rbp"@, "rsp"@)) + line_text(
        Line::Push("r12"@),
    );
    assert("    push rbp\n    mov rbp, rsp\n    push r12\n"@ =~= a);
    let b = line_text(Line::Pop("r12"@)) + line_text(Line::Pop("rbp"@)) + line_text(Line::Ret)
        + "\n"@;
    assert("    pop r12\n    pop rbp\n    ret\n\n"@ =~= b);
    assert(o + a =~= o + line_text(Line::Push("rbp"@)) + line_text(Line::Mark("rbp"@, "rsp"@))
        + line_text(Line::Push("r12"@)));
    assert(o + b =~= o + line_text(Line::Pop("r12"@)) + line_text(Line::Pop("rbp"@)) + line_text(
        Line::Ret,
    ) + "\n"@);
}

/// The registers that are saved besides those of variables.
proof fn lemma_x86_names()
    ensures
        "rbp"@ != "r12"@,
        forall|i: int| #[trigger] x86_model::pool_reg(i) != "rbp"@ && x86_model::pool_reg(i) != "r12"@,
{
    reveal(x86_model::pool_reg);
    reveal_strlit("rbp");
    reveal_strlit("r12");
    reveal_strlit("rbx");
    reveal_strlit("r13");
    reveal_strlit("r14");
    reveal_strlit("r15");
    assert("rbp"@[1] == 'b' && "rbp"@[2] == 'p' && "rbx"@[2] == 'x');
    assert("r12"@[1] == '1' && "r12"@[2] == '2');
    assert("r13"@[2] == '3' && "r14"@[2] == '4' && "r15"@[2] == '5');
    assert("rbx"@[1] == 'b' && "r13"@[1] == '1' && "r14"@[1] == '1' && "r15"@[1] == '1');
}

/// The registers of variables go to the stack.
proof fn lemma_save_regs(from: Seq<char>, out: Seq<char>, k: nat, c0: Machine, c: Machine) -> (d: Machine)
    requires
        leads(from, out, c0, c),
    ensures
        leads(from, save_regs(out, k), c0, d),
        d.sp == c.sp - 8 * k,
        d.regs == c.regs,
        d.done == c.done,
        forall|a: int| a >= c.sp ==> #[trigger] d.mem[a] == c.mem[a],
        forall|j: int|
            0 <= j < k ==> d.mem[c.sp - 8 * (j + 1)] == c.regs[#[trigger] x86_model::pool_reg(j)],
    decreases k,
{
    reveal(save_regs);
    reveal(ins1);
    if k == 0 {
        c
    } else {
        let j = (k - 1) as nat;
        let d1 = lemma_save_regs(from, out, j, c0, c);
        let r = x86_model::pool_reg(k - 1);
        lemma_one(d1, r, 8);
        lemma_line(from, save_regs(out, j), c0, d1, Line::Push(r))
    }
}

/// The registers of variables come from the stack.
proof fn lemma_restore_regs(from: Seq<char>, out: Seq<char>, k: nat, c0: Machine, c: Machine) -> (d: Machine)
    requires
        leads(from, out, c0, c),
        k <= 4,
    ensures
        leads(from, restore_regs(out, k), c0, d),
        d.sp == c.sp + 8 * k,
        d.mem == c.mem,
        d.done == c.done,
        forall|j: int|
            0 <= j < k ==> d.regs[#[trigger] x86_model::pool_reg(j)] == c.mem[c.sp + 8 * (k - 1 - j)],
        forall|r: Seq<char>|
            (forall|j: int| 0 <= j < k ==> r != #[trigger] x86_model::pool_reg(j))
                ==> #[trigger] d.regs[r] == c.regs[r],
    decreases k,
{
    reveal(restore_regs);
    reveal(ins1);
    lemma_pool();
    if k == 0 {
        c
    } else {
        let j = (k - 1) as nat;
        let r = x86_model::pool_reg(k - 1);
        lemma_one(c, r, 8);
        let d1 = lemma_line(from, out, c0, c, Line::Pop(r));
        let d = lemma_restore_regs(from, out + line_text(Line::Pop(r)), j, c0, d1);
        assert forall|i: int| 0 <= i < k implies d.regs[#[trigger] x86_model::pool_reg(i)]
            == c.mem[c.sp + 8 * (k - 1 - i)] by {
            if i == k - 1 {
                assert(d.regs[r] == d1.regs[r]);
            }
        }
        assert forall|x: Seq<char>|
            (forall|i: int| 0 <= i < k ==> x != #[trigger] x86_model::pool_reg(i)) implies #[trigger] d.regs[x]
            == c.regs[x] by {
            assert(x != x86_model::pool_reg(k - 1));
        }
        d
    }
}

/// The exit of an x86_64 function undoes its entry: whatever the body does, if it
/// leaves the stack pointer where the entry has left it and what the entry has
/// saved as it was, the function returns with the stack pointer, the frame
/// pointer, `r12` and the registers of its variables as its caller had them.
pub proof fn law_x86_functions_restore_their_registers(from: Seq<char>, to: Seq<char>, f: Func, c: Machine)
    requires
        f.saved <= 4,
        !c.done,
    ensures
        exists|d: Machine|
            #![trigger leads(from, x86_model::prologue(from, f), c, d)]
            leads(from, x86_model::prologue(from, f), c, d) && forall|e: Machine| #[trigger]
                kept(d, e, frame_bytes(f)) ==> x86_returns(to, f, e, c),
{
    reveal(x86_model::prologue);
    reveal(label_line);
    lemma_x86_names();
    lemma_start(from, c);
    let n = f.saved as nat;
    let l = Line::Label(f.name);
    let d0 = lemma_line(from, from, c, c, l);
    let o0 = from + line_text(l);
    lemma_x86_text(o0);
    lemma_one(d0, "rbp"@, 8);
    let d1 = lemma_line(from, o0, c, d0, Line::Push("rbp"@));
    let o1 = o0 + line_text(Line::Push("rbp"@));
    let d2 = lemma_line(from, o1, c, d1, Line::Mark("rbp"@, "rsp"@));
    let o2 = o1 + line_text(Line::Mark("rbp"@, "rsp"@));
    lemma_one(d2, "r12"@, 8);
    let d3 = lemma_line(from, o2, c, d2, Line::Push("r12"@));
    let o3 = o2 + line_text(Line::Push("r12"@));
    let d4 = lemma_save_regs(from, o3, n, c, d3);
    let o4 = save_regs(o3, n);
    lemma_parts(o4, "    sub rsp, "@, dec(f.frame as nat), "\n"@);
    let d = if f.frame > 0 {
        lemma_line(from, o4, c, d4, Line::Down(f.frame as nat))
    } else {
        d4
    };
    assert(leads(from, x86_model::prologue(from, f), c, d));
    assert forall|e: Machine| #[trigger] kept(d, e, frame_bytes(f)) implies x86_returns(to, f, e, c) by {
        let g = lemma_x86_exit(to, f, e);
        assert(e.mem[d4.sp + 8 * n] == d4.mem[d4.sp + 8 * n]);
        assert(e.mem[d4.sp + 8 * n + 8] == d4.mem[d4.sp + 8 * n + 8]);
        assert(d4.mem[d3.sp] == d3.mem[d3.sp]);
        assert(d4.mem[d3.sp + 8] == d3.mem[d3.sp + 8]);
        assert forall|j: int| 0 <= j < n implies g.regs[#[trigger] x86_model::pool_reg(j)]
            == c.regs[x86_model::pool_reg(j)] by {
            let a = d3.sp - 8 * (j + 1);
            assert(a == d4.sp + 8 * (n - 1 - j));
            assert(e.mem[a] == d4.mem[a]);
            assert(d4.mem[a] == d3.regs[x86_model::pool_reg(j)]);
        }
    }
}

/// The bytes below what the entry saves.
pub open spec fn frame_bytes(f: Func) -> int {
    if f.frame > 0 {
        f.frame as int
    } else {
        0
    }
}

/// The stack pointer is where it was, and so is what lies above the frame.
pub open spec fn kept(d: Machine, e: Machine, frame: int) -> bool {
    &&& e.sp == d.sp
    &&& !e.done
    &&& forall|a: int| a >= d.sp + frame ==> #[trigger] e.mem[a] == d.mem[a]
}

/// The exit leads from `e` back to the caller, whose registers were those of `c`.
pub open spec fn x86_returns(to: Seq<char>, f: Func, e: Machine, c: Machine) -> bool {
    exists|t: Seq<char>, g: Machine| #[trigger]
        leads(to, t, e, g) && x86_model::epilogue_text(to, f) == t + "\n"@ && g.done && g.sp == c.sp
            && g.regs["rbp"@] == c.regs["rbp"@] && g.regs["r12"@] == c.regs["r12"@] && forall|j: int|
            0 <= j < f.saved ==> g.regs[#[trigger] x86_model::pool_reg(j)]
                == c.regs[x86_model::pool_reg(j)]
}

/// The exit of a function.
proof fn lemma_x86_exit(to: Seq<char>, f: Func, e: Machine) -> (g: Machine)
    requires
        f.saved <= 4,
    ensures
        ({
            let n = f.saved as int;
            let sp = e.sp + frame_bytes(f);
            exists|t: Seq<char>| #[trigger]
                leads(to, t, e, g) && x86_model::epilogue_text(to, f) == t + "\n"@ && g.done && g.sp
                    == sp + 8 * n + 16 && g.regs["r12"@] == e.mem[sp + 8 * n] && g.regs["rbp"@]
                    == e.mem[sp + 8 * n + 8] && forall|j: int|
                    0 <= j < n ==> g.regs[#[trigger] x86_model::pool_reg(j)] == e.mem[sp + 8 * (n - 1
                        - j)]
        }),
{
    reveal(x86_model::epilogue_text);
    reveal(label_line);
    lemma_x86_names();
    lemma_start(to, e);
    let n = f.saved as nat;
    let l = Line::Label(f.epilogue);
    let d0 = lemma_line(to, to, e, e, l);
    let o0 = to + line_text(l);
    let up = Line::Up(f.frame as nat);
    lemma_parts(o0, "    add rsp, "@, dec(f.frame as nat), "\n"@);
    let d1 = if f.frame > 0 {
        lemma_line(to, o0, e, d0, up)
    } else {
        d0
    };
    let o1 = if f.frame > 0 {
        o0 + line_text(up)
    } else {
        o0
    };
    let d2 = lemma_restore_regs(to, o1, n, e, d1);
    let o2 = restore_regs(o1, n);
    lemma_x86_text(o2);
    lemma_one(d2, "r12"@, 8);
    let d3 = lemma_line(to, o2, e, d2, Line::Pop("r12"@));
    let o3 = o2 + line_text(Line::Pop("r12"@));
    lemma_one(d3, "rbp"@, 8);
    let d4 = lemma_line(to, o3, e, d3, Line::Pop("rbp"@));
    let o4 = o3 + line_text(Line::Pop("rbp"@));
    let g = lemma_line(to, o4, e, d4, Line::Ret);
    let t = o4 + line_text(Line::Ret);
    assert(leads(to, t, e, g));
    assert(x86_model::epilogue_text(to, f) == t + "\n"@);
    g
}

// ---------------------------------------------------------------------------
// AArch64
// ---------------------------------------------------------------------------

/// The lines at the entry and the exit of a function.
proof fn lemma_a64_text(o: Seq<char>)
    ensures
        o + "    stp x29, x30, [sp, #-16]!\n    mov x29, sp\n"@ == o + line_text(
            Line::PushPair("x29"@, "x30"@),
        ) + line_text(Line::Mark("x29"@, "sp"@)),
        o + "    ldp x29, x30, [sp], #16\n    ret\n"@ == o + line_text(Line::PopPair("x29"@, "x30"@))
            + line_text(Line::Ret),
{
    reveal_strlit("    stp x29, x30, [sp, #-16]!\n    mov x29, sp\n");
    reveal_strlit("    ldp x29, x30, [sp], #16\n    ret\n");
    reveal_strlit("    stp ");
    reveal_strlit("    ldp ");
    reveal_strlit("    mov ");
    reveal_strlit("    ret\n");
    reveal_strlit("x29");
    reveal_strlit("x30");
    reveal_strlit("sp");
    reveal_strlit(", ");
    reveal_strlit(", [sp, #-16]!\n");
    reveal_strlit(", [sp], #16\n");
    reveal_strlit("\n");
    let a = line_text(Line::PushPair("x29"@, "x30"@)) + line_text(Line::Mark("x29"@, "sp"@));
    assert("    stp x29, x30, [sp, #-16]!\n    mov x29, sp\n"@ =~= a);
    let b = line_text(Line::PopPair("x29"@, "x30"@)) + line_text(Line::Ret);
    assert("    ldp x29, x30, [sp], #16\n    ret\n"@ =~= b);
    assert(o + a =~= o + line_text(Line::PushPair("x29"@, "x30"@)) + line_text(
        Line::Mark("x29"@, "sp"@),
    ));
    assert(o + b =~= o + line_text(Line::PopPair("x29"@, "x30"@)) + line_text(Line::Ret));
}

/// A line in four and in five parts.
proof fn lemma_more_parts(o: Seq<char>, a: Seq<char>, b: Seq<char>, c: Seq<char>, d: Seq<char>, e: Seq<char>)
    ensures
        o + a + b + c + d + e == o + (a + b + c + d + e),
{
    assert(o + a + b + c + d + e =~= o + (a + b + c + d + e));
}

/// The registers that are saved besides those of variables.
proof fn lemma_arm_names(a64: bool)
    ensures
        "x29"@ != "x30"@,
        "r11"@ != "lr"@,
        "r11"@ != "pc"@,
        forall|i: int|
            0 <= i < pool_len(a64) ==> #[trigger] arm_model::pool_reg(a64, i) != "x29"@
                && arm_model::pool_reg(a64, i) != "x30"@ && arm_model::pool_reg(a64, i) != "r11"@
                && arm_model::pool_reg(a64, i) != "pc"@,
        forall|i: int, j: int|
            #![trigger arm_model::pool_reg(a64, i), arm_model::pool_reg(a64, j)]
            0 <= i < j < pool_len(a64) ==> arm_model::pool_reg(a64, i) != arm_model::pool_reg(a64, j),
{
    lemma_arm_pool(a64);
    reveal(arm_model::fp);
    reveal(arm_model::pool_reg);
    reveal(reg_prefix);
    reveal_with_fuel(dec, 3);
    reveal_strlit("x");
    reveal_strlit("r");
    reveal_strlit("x29");
    reveal_strlit("x30");
    reveal_strlit("r11");
    reveal_strlit("lr");
    reveal_strlit("pc");
    assert("x29"@[1] == '2' && "x30"@[1] == '3');
    assert("r11"@.len() == 3 && "lr"@.len() == 2 && "pc"@.len() == 2);
    assert("x30"@ =~= "x"@ + dec(30));
    assert forall|i: int| 0 <= i < pool_len(a64) implies #[trigger] arm_model::pool_reg(a64, i)
        != "x29"@ && arm_model::pool_reg(a64, i) != "x30"@ && arm_model::pool_reg(a64, i) != "r11"@
        && arm_model::pool_reg(a64, i) != "pc"@ by {
        let p = arm_model::pool_reg(a64, i);
        assert(p != arm_model::fp(a64));
        if a64 {
            lemma_numbered(true, (i + 19) as nat, 30);
            assert(p[0] == 'x' && "r11"@[0] == 'r' && "pc"@[0] == 'p');
        } else {
            assert(p[0] == 'r' && "x29"@[0] == 'x' && "x30"@[0] == 'x' && "pc"@[0] == 'p');
        }
    }
}

/// The registers of variables go to the stack in pairs.
proof fn lemma_save_pairs(from: Seq<char>, out: Seq<char>, n: int, i: int, c0: Machine, c: Machine) -> (d: Machine)
    requires
        leads(from, out, c0, c),
        0 <= i <= n,
    ensures
        leads(from, save_pairs(out, n, i), c0, d),
        d.sp == c.sp - 16 * ((n - i + 1) / 2),
        d.regs == c.regs,
        d.done == c.done,
        forall|a: int| a >= c.sp ==> #[trigger] d.mem[a] == c.mem[a],
        forall|j: int|
            i <= j < n ==> d.mem[c.sp - 16 * ((j - i) / 2 + 1) + 8 * ((j - i) % 2)]
                == c.regs[#[trigger] arm_model::pool_reg(true, j)],
    decreases n - i,
{
    reveal(save_pairs);
    if i + 1 < n {
        let (a, b) = (arm_model::pool_reg(true, i), arm_model::pool_reg(true, i + 1));
        let l = Line::PushPair(a, b);
        lemma_more_parts(out, "    stp "@, a, ", "@, b, ", [sp, #-16]!\n"@);
        lemma_pair(c, a, b);
        let d1 = lemma_line(from, out, c0, c, l);
        let d = lemma_save_pairs(from, out + line_text(l), n, i + 2, c0, d1);
        assert(d.mem[c.sp - 16] == d1.mem[c.sp - 16]);
        assert(d.mem[c.sp - 8] == d1.mem[c.sp - 8]);
        assert forall|j: int| i <= j < n implies d.mem[c.sp - 16 * ((j - i) / 2 + 1) + 8 * ((j - i)
            % 2)] == c.regs[#[trigger] arm_model::pool_reg(true, j)] by {
            if j >= i + 2 {
                assert((j - i - 2) / 2 + 1 == (j - i) / 2);
                assert((j - i - 2) % 2 == (j - i) % 2);
                assert(d.mem[d1.sp - 16 * ((j - (i + 2)) / 2 + 1) + 8 * ((j - (i + 2)) % 2)]
                    == d1.regs[arm_model::pool_reg(true, j)]);
            }
        }
        d
    } else if i < n {
        let a = arm_model::pool_reg(true, i);
        lemma_parts(out, "    str "@, a, ", [sp, #-16]!\n"@);
        lemma_one(c, a, 16);
        lemma_line(from, out, c0, c, Line::PushOne(a))
    } else {
        c
    }
}

/// The registers of variables come from the stack in pairs.
proof fn lemma_restore_pairs(from: Seq<char>, out: Seq<char>, i: int, c0: Machine, c: Machine) -> (d: Machine)
    requires
        leads(from, out, c0, c),
        0 <= i <= 10,
        i % 2 == 0,
    ensures
        leads(from, restore_pairs(out, i), c0, d),
        d.sp == c.sp + 8 * i,
        d.mem == c.mem,
        d.done == c.done,
        forall|j: int|
            0 <= j < i ==> d.regs[#[trigger] arm_model::pool_reg(true, j)] == c.mem[c.sp + 16 * ((i - 1
                - j) / 2) + 8 * (j % 2)],
        forall|r: Seq<char>|
            (forall|j: int| 0 <= j < i ==> r != #[trigger] arm_model::pool_reg(true, j))
                ==> #[trigger] d.regs[r] == c.regs[r],
    decreases i,
{
    reveal(restore_pairs);
    lemma_arm_names(true);
    if i >= 2 {
        let (a, b) = (arm_model::pool_reg(true, i - 2), arm_model::pool_reg(true, i - 1));
        let l = Line::PopPair(a, b);
        lemma_more_parts(out, "    ldp "@, a, ", "@, b, ", [sp], #16\n"@);
        lemma_pair(c, a, b);
        let d1 = lemma_line(from, out, c0, c, l);
        let d = lemma_restore_pairs(from, out + line_text(l), i - 2, c0, d1);
        assert(d.regs[a] == d1.regs[a]);
        assert(d.regs[b] == d1.regs[b]);
        assert forall|j: int| 0 <= j < i implies d.regs[#[trigger] arm_model::pool_reg(true, j)]
            == c.mem[c.sp + 16 * ((i - 1 - j) / 2) + 8 * (j % 2)] by {
            if j < i - 2 {
                assert((i - 3 - j) / 2 + 1 == (i - 1 - j) / 2);
            } else {
                assert((i - 1 - j) / 2 == 0);
            }
        }
        assert forall|x: Seq<char>|
            (forall|j: int| 0 <= j < i ==> x != #[trigger] arm_model::pool_reg(true, j)) implies #[trigger] d.regs[x]
            == c.regs[x] by {
            assert(x != arm_model::pool_reg(true, i - 2));
            assert(x != arm_model::pool_reg(true, i - 1));
        }
        d
    } else {
        c
    }
}

/// The exit leads from `e` back to the caller, whose registers were those of `c`.
pub open spec fn a64_returns(to: Seq<char>, f: Func, e: Machine, c: Machine) -> bool {
    exists|g: Machine| #[trigger]
        leads(to, arm_model::epilogue_text(to, true, f), e, g) && g.done && g.sp == c.sp
            && g.regs["x29"@] == c.regs["x29"@] && g.regs["x30"@] == c.regs["x30"@] && forall|j: int|
            0 <= j < f.saved ==> g.regs[#[trigger] arm_model::pool_reg(true, j)]
                == c.regs[arm_model::pool_reg(true, j)]
}

/// The bytes below what the entry saves.
pub open spec fn arm_frame_bytes(a64: bool, f: Func) -> int {
    if f.frame > 0 {
        ceil_to(f.frame, stack_align(a64))
    } else {
        0
    }
}

/// A frame is not negative.
proof fn lemma_frame(a64: bool, f: Func)
    ensures
        arm_frame_bytes(a64, f) >= 0,
{
    if f.frame > 0 {
        let s = stack_align(a64);
        assert((f.frame + s - 1) / s >= 0);
    }
}

/// The exit of an AArch64 function undoes its entry: whatever the body does, if it
/// leaves the stack pointer where the entry has left it and what the entry has
/// saved as it was, the function returns with the stack pointer, the frame
/// pointer, the link register and the registers of its variables as its caller
/// had them.
pub proof fn law_a64_functions_restore_their_registers(from: Seq<char>, to: Seq<char>, f: Func, c: Machine)
    requires
        f.saved <= 10,
        !c.done,
    ensures
        exists|d: Machine|
            #![trigger leads(from, arm_model::prologue(from, true, f), c, d)]
            leads(from, arm_model::prologue(from, true, f), c, d) && forall|e: Machine| #[trigger]
                kept(d, e, arm_frame_bytes(true, f)) ==> a64_returns(to, f, e, c),
{
    reveal(arm_model::prologue);
    lemma_arm_names(true);
    lemma_frame(true, f);
    lemma_start(from, c);
    let n = f.saved as int;
    lemma_a64_text(from);
    lemma_pair(c, "x29"@, "x30"@);
    let d1 = lemma_line(from, from, c, c, Line::PushPair("x29"@, "x30"@));
    let o1 = from + line_text(Line::PushPair("x29"@, "x30"@));
    let d2 = lemma_line(from, o1, c, d1, Line::Mark("x29"@, "sp"@));
    let o2 = o1 + line_text(Line::Mark("x29"@, "sp"@));
    let d3 = lemma_save_pairs(from, o2, n, 0, c, d2);
    let o3 = save_pairs(o2, n, 0);
    let size = ceil_to(f.frame, stack_align(true)) as nat;
    lemma_parts(o3, "    sub sp, sp, #"@, dec(size), "\n"@);
    let d = if f.frame > 0 {
        lemma_line(from, o3, c, d3, Line::DownBy(size))
    } else {
        d3
    };
    assert(leads(from, arm_model::prologue(from, true, f), c, d));
    assert forall|e: Machine| #[trigger] kept(d, e, arm_frame_bytes(true, f)) implies a64_returns(
        to,
        f,
        e,
        c,
    ) by {
        let g = lemma_a64_exit(to, f, e);
        let s = d2.sp;
        assert(s == d3.sp + 16 * ((n + 1) / 2));
        assert(e.mem[s] == d3.mem[s]);
        assert(e.mem[s + 8] == d3.mem[s + 8]);
        assert(d3.mem[s] == d2.mem[s]);
        assert(d3.mem[s + 8] == d2.mem[s + 8]);
        assert forall|j: int| 0 <= j < n implies g.regs[#[trigger] arm_model::pool_reg(true, j)]
            == c.regs[arm_model::pool_reg(true, j)] by {
            let a = s - 16 * (j / 2 + 1) + 8 * (j % 2);
            assert(d3.mem[a] == d2.regs[arm_model::pool_reg(true, j)]);
            lemma_places(n, j);
            assert(a >= d3.sp);
            assert(e.mem[a] == d3.mem[a]);
        }
    }
}

/// Where a register was saved is where it is found.
proof fn lemma_places(n: int, j: int)
    requires
        0 <= j < n,
    ensures
        16 * (j / 2 + 1) - 8 * (j % 2) <= 16 * ((n + 1) / 2),
        n % 2 == 1 && j == n - 1 ==> 16 * ((n + 1) / 2) == 16 * (j / 2 + 1) - 8 * (j % 2),
        ({
            let m = n - n % 2;
            j < m ==> 8 * m - 16 * ((m - 1 - j) / 2) - 8 * (j % 2) == 16 * (j / 2 + 1) - 8 * (j % 2)
        }),
{
}

/// The exit of a function.
proof fn lemma_a64_exit(to: Seq<char>, f: Func, e: Machine) -> (g: Machine)
    requires
        f.saved <= 10,
    ensures
        leads(to, arm_model::epilogue_text(to, true, f), e, g),
        g.done,
        ({
            let n = f.saved as int;
            let s = e.sp + arm_frame_bytes(true, f) + 16 * ((n + 1) / 2);
            &&& g.sp == s + 16
            &&& g.regs["x29"@] == e.mem[s]
            &&& g.regs["x30"@] == e.mem[s + 8]
            &&& forall|j: int|
                0 <= j < n ==> g.regs[#[trigger] arm_model::pool_reg(true, j)] == e.mem[s - 16 * (j / 2
                    + 1) + 8 * (j % 2)]
        }),
{
    reveal(arm_model::epilogue_text);
    reveal(label_line);
    lemma_arm_names(true);
    lemma_start(to, e);
    let n = f.saved as int;
    let l = Line::Label(f.epilogue);
    let d0 = lemma_line(to, to, e, e, l);
    let o0 = to + line_text(l);
    let size = ceil_to(f.frame, stack_align(true)) as nat;
    lemma_frame(true, f);
    lemma_parts(o0, "    add sp, sp, #"@, dec(size), "\n"@);
    let d1 = if f.frame > 0 {
        lemma_line(to, o0, e, d0, Line::UpBy(size))
    } else {
        d0
    };
    let o1 = if f.frame > 0 {
        o0 + line_text(Line::UpBy(size))
    } else {
        o0
    };
    let m = n - n % 2;
    let r = arm_model::pool_reg(true, n - 1);
    lemma_parts(o1, "    ldr "@, r, ", [sp], #16\n"@);
    lemma_one(d1, r, 16);
    let d2 = if n % 2 == 1 {
        lemma_line(to, o1, e, d1, Line::PopOne(r))
    } else {
        d1
    };
    let o2 = if n % 2 == 1 {
        o1 + line_text(Line::PopOne(r))
    } else {
        o1
    };
    let d3 = lemma_restore_pairs(to, o2, m, e, d2);
    let o3 = restore_pairs(o2, m);
    lemma_a64_text(o3);
    lemma_pair(d3, "x29"@, "x30"@);
    let d4 = lemma_line(to, o3, e, d3, Line::PopPair("x29"@, "x30"@));
    let o4 = o3 + line_text(Line::PopPair("x29"@, "x30"@));
    let g = lemma_line(to, o4, e, d4, Line::Ret);
    let s = e.sp + arm_frame_bytes(true, f) + 16 * ((n + 1) / 2);
    assert(d3.sp == s);
    assert forall|j: int| 0 <= j < n implies g.regs[#[trigger] arm_model::pool_reg(true, j)]
        == e.mem[s - 16 * (j / 2 + 1) + 8 * (j % 2)] by {
        lemma_places(n, j);
        if j < m {
            assert(d3.regs[arm_model::pool_reg(true, j)] == d2.mem[d2.sp + 16 * ((m - 1 - j) / 2) + 8
                * (j % 2)]);
        } else {
            assert(d3.regs[r] == d2.regs[r]);
        }
    }
    g
}

// ---------------------------------------------------------------------------
// ARM32
// ---------------------------------------------------------------------------

/// A list of registers on the stack.
proof fn lemma_put(mem: Map<int, int>, regs: Map<Seq<char>, int>, rs: Seq<Seq<char>>, at: int)
    ensures
        forall|i: int|
            0 <= i < rs.len() ==> put(mem, regs, rs, at, 4)[at + 4 * i] == regs[#[trigger] rs[i]],
        forall|a: int|
            a >= at + 4 * rs.len() ==> #[trigger] put(mem, regs, rs, at, 4)[a] == mem[a],
    decreases rs.len(),
{
    if rs.len() > 0 {
        let f = rs.drop_last();
        lemma_put(mem, regs, f, at);
        assert forall|i: int| 0 <= i < rs.len() implies put(mem, regs, rs, at, 4)[at + 4 * i]
            == regs[#[trigger] rs[i]] by {
            if i < rs.len() - 1 {
                assert(put(mem, regs, f, at, 4)[at + 4 * i] == regs[f[i]]);
            }
        }
        assert forall|a: int| a >= at + 4 * rs.len() implies #[trigger] put(mem, regs, rs, at, 4)[a]
            == mem[a] by {
            assert(put(mem, regs, f, at, 4)[a] == mem[a]);
        }
    }
}

/// A list of registers from the stack.
proof fn lemma_got(regs: Map<Seq<char>, int>, mem: Map<int, int>, rs: Seq<Seq<char>>, at: int)
    requires
        rs.no_duplicates(),
    ensures
        forall|i: int|
            0 <= i < rs.len() ==> got(regs, mem, rs, at, 4)[#[trigger] rs[i]] == mem[at + 4 * i],
        forall|r: Seq<char>|
            !rs.contains(r) ==> #[trigger] got(regs, mem, rs, at, 4)[r] == regs[r],
    decreases rs.len(),
{
    if rs.len() > 0 {
        let f = rs.drop_last();
        lemma_got(regs, mem, f, at);
        assert forall|i: int| 0 <= i < rs.len() implies got(regs, mem, rs, at, 4)[#[trigger] rs[i]]
            == mem[at + 4 * i] by {
            if i < rs.len() - 1 {
                assert(f[i] == rs[i]);
                assert(rs[i] != rs.last());
            }
        }
        assert forall|r: Seq<char>| !rs.contains(r) implies #[trigger] got(regs, mem, rs, at, 4)[r]
            == regs[r] by {
            assert(rs[rs.len() - 1] == rs.last());
            assert(!f.contains(r)) by {
                if f.contains(r) {
                    let i = choose|i: int| 0 <= i < f.len() && f[i] == r;
                    assert(rs[i] == r);
                }
            }
            assert(got(regs, mem, f, at, 4)[r] == regs[r]);
            assert(r != rs.last());
        }
    }
}

/// The lines at the entry and the exit of a function.
proof fn lemma_a32_text(o: Seq<char>)
    ensures
        o + "    push {r11, lr}\n    mov r11, sp\n"@ == o + line_text(
            Line::PushList(seq!["r11"@, "lr"@]),
        ) + line_text(Line::Mark("r11"@, "sp"@)),
        o + "    pop {r11, pc}\n"@ == o + line_text(Line::PopList(seq!["r11"@, "pc"@])),
{
    reveal_strlit("    push {r11, lr}\n    mov r11, sp\n");
    reveal_strlit("    pop {r11, pc}\n");
    reveal_strlit("    push {");
    reveal_strlit("    pop {");
    reveal_strlit("}\n");
    reveal_strlit("    mov ");
    reveal_strlit("r11");
    reveal_strlit("lr");
    reveal_strlit("pc");
    reveal_strlit("sp");
    reveal_strlit(", ");
    reveal_strlit("\n");
    reveal_with_fuel(joined, 3);
    let (p, q) = (seq!["r11"@, "lr"@], seq!["r11"@, "pc"@]);
    assert(p.drop_last() =~= seq!["r11"@]);
    assert(q.drop_last() =~= seq!["r11"@]);
    assert(joined(p, ", "@) =~= "r11"@ + ", "@ + "lr"@);
    assert(joined(q, ", "@) =~= "r11"@ + ", "@ + "pc"@);
    let a = line_text(Line::PushList(p)) + line_text(Line::Mark("r11"@, "sp"@));
    assert("    push {r11, lr}\n    mov r11, sp\n"@ =~= a);
    assert("    pop {r11, pc}\n"@ =~= line_text(Line::PopList(q)));
    assert(o + a =~= o + line_text(Line::PushList(p)) + line_text(Line::Mark("r11"@, "sp"@)));
}

/// The exit leads from `e` back to the caller, whose registers were those of `c`.
pub open spec fn a32_returns(to: Seq<char>, f: Func, e: Machine, c: Machine) -> bool {
    exists|g: Machine| #[trigger]
        leads(to, arm_model::epilogue_text(to, false, f), e, g) && g.sp == c.sp && g.regs["r11"@]
            == c.regs["r11"@] && g.regs["pc"@] == c.regs["lr"@] && forall|j: int|
            0 <= j < f.saved ==> g.regs[#[trigger] arm_model::pool_reg(false, j)]
                == c.regs[arm_model::pool_reg(false, j)]
}

/// The registers of variables in a list.
proof fn lemma_pool_list(k: nat)
    requires
        k <= 7,
    ensures
        pool_list(false, k).no_duplicates(),
        !pool_list(false, k).contains("r11"@),
        !pool_list(false, k).contains("pc"@),
{
    lemma_arm_names(false);
    let rs = pool_list(false, k);
    assert forall|i: int, j: int| 0 <= i < rs.len() && 0 <= j < rs.len() && i != j implies rs[i]
        != rs[j] by {
        assert(rs[i] == arm_model::pool_reg(false, i) && rs[j] == arm_model::pool_reg(false, j));
    }
    assert forall|i: int| 0 <= i < rs.len() implies rs[i] != "r11"@ && rs[i] != "pc"@ by {
        assert(rs[i] == arm_model::pool_reg(false, i));
    }
}

/// The exit of an ARM32 function undoes its entry: whatever the body does, if it
/// leaves the stack pointer where the entry has left it and what the entry has
/// saved as it was, the function returns to where the link register pointed, with
/// the stack pointer, the frame pointer and the registers of its variables as its
/// caller had them.
pub proof fn law_a32_functions_restore_their_registers(from: Seq<char>, to: Seq<char>, f: Func, c: Machine)
    requires
        f.saved <= 7,
        !c.done,
    ensures
        exists|d: Machine|
            #![trigger leads(from, arm_model::prologue(from, false, f), c, d)]
            leads(from, arm_model::prologue(from, false, f), c, d) && forall|e: Machine| #[trigger]
                kept(d, e, arm_frame_bytes(false, f)) ==> a32_returns(to, f, e, c),
{
    reveal(arm_model::prologue);
    lemma_arm_names(false);
    lemma_frame(false, f);
    lemma_start(from, c);
    let n = f.saved as nat;
    let first = seq!["r11"@, "lr"@];
    let rs = pool_list(false, n);
    lemma_pool_list(n);
    lemma_a32_text(from);
    lemma_put(c.mem, c.regs, first, c.sp - 8);
    let d1 = lemma_line(from, from, c, c, Line::PushList(first));
    let o1 = from + line_text(Line::PushList(first));
    let d2 = lemma_line(from, o1, c, d1, Line::Mark("r11"@, "sp"@));
    let o2 = o1 + line_text(Line::Mark("r11"@, "sp"@));
    assert(d1.mem[c.sp - 8 + 4 * 0] == c.regs[first[0]]);
    assert(d1.mem[c.sp - 8 + 4 * 1] == c.regs[first[1]]);
    lemma_put(d2.mem, d2.regs, rs, d2.sp - 4 * n);
    lemma_parts(o2, "    push {"@, joined(rs, ", "@), "}\n"@);
    let d3 = if n > 0 {
        lemma_line(from, o2, c, d2, Line::PushList(rs))
    } else {
        d2
    };
    let o3 = if n > 0 {
        o2 + line_text(Line::PushList(rs))
    } else {
        o2
    };
    let size = ceil_to(f.frame, stack_align(false)) as nat;
    lemma_parts(o3, "    sub sp, sp, #"@, dec(size), "\n"@);
    let d = if f.frame > 0 {
        lemma_line(from, o3, c, d3, Line::DownBy(size))
    } else {
        d3
    };
    assert(leads(from, arm_model::prologue(from, false, f), c, d));
    let s = d2.sp;
    assert(d3.sp == s - 4 * n);
    assert(d3.mem[s] == d2.mem[s]);
    assert(d3.mem[s + 4] == d2.mem[s + 4]);
    assert forall|e: Machine| #[trigger] kept(d, e, arm_frame_bytes(false, f)) implies a32_returns(
        to,
        f,
        e,
        c,
    ) by {
        let g = lemma_a32_exit(to, f, e);
        assert(e.mem[s] == d3.mem[s]);
        assert(e.mem[s + 4] == d3.mem[s + 4]);
        assert forall|j: int| 0 <= j < n implies g.regs[#[trigger] arm_model::pool_reg(false, j)]
            == c.regs[arm_model::pool_reg(false, j)] by {
            assert(rs[j] == arm_model::pool_reg(false, j));
            assert(d3.mem[s - 4 * n + 4 * j] == d2.regs[rs[j]]);
            assert(e.mem[s - 4 * n + 4 * j] == d3.mem[s - 4 * n + 4 * j]);
        }
    }
}

/// The exit of a function.
proof fn lemma_a32_exit(to: Seq<char>, f: Func, e: Machine) -> (g: Machine)
    requires
        f.saved <= 7,
    ensures
        leads(to, arm_model::epilogue_text(to, false, f), e, g),
        ({
            let n = f.saved as int;
            let s = e.sp + arm_frame_bytes(false, f) + 4 * n;
            &&& g.sp == s + 8
            &&& g.regs["r11"@] == e.mem[s]
            &&& g.regs["pc"@] == e.mem[s + 4]
            &&& forall|j: int|
                0 <= j < n ==> g.regs[#[trigger] arm_model::pool_reg(false, j)] == e.mem[s - 4 * n + 4
                    * j]
        }),
{
    reveal(arm_model::epilogue_text);
    reveal(label_line);
    lemma_arm_names(false);
    lemma_start(to, e);
    let n = f.saved as nat;
    let l = Line::Label(f.epilogue);
    let d0 = lemma_line(to, to, e, e, l);
    let o0 = to + line_text(l);
    let size = ceil_to(f.frame, stack_align(false)) as nat;
    lemma_frame(false, f);
    lemma_parts(o0, "    add sp, sp, #"@, dec(size), "\n"@);
    let d1 = if f.frame > 0 {
        lemma_line(to, o0, e, d0, Line::UpBy(size))
    } else {
        d0
    };
    let o1 = if f.frame > 0 {
        o0 + line_text(Line::UpBy(size))
    } else {
        o0
    };
    let rs = pool_list(false, n);
    lemma_pool_list(n);
    lemma_parts(o1, "    pop {"@, joined(rs, ", "@), "}\n"@);
    lemma_got(d1.regs, d1.mem, rs, d1.sp);
    let d2 = if n > 0 {
        lemma_line(to, o1, e, d1, Line::PopList(rs))
    } else {
        d1
    };
    let o2 = if n > 0 {
        o1 + line_text(Line::PopList(rs))
    } else {
        o1
    };
    let two = seq!["r11"@, "pc"@];
    assert(two.no_duplicates());
    lemma_a32_text(o2);
    lemma_got(d2.regs, d2.mem, two, d2.sp);
    let g = lemma_line(to, o2, e, d2, Line::PopList(two));
    assert(g.regs[two[0]] == d2.mem[d2.sp + 4 * 0]);
    assert(g.regs[two[1]] == d2.mem[d2.sp + 4 * 1]);
    assert forall|j: int| 0 <= j < n implies g.regs[#[trigger] arm_model::pool_reg(false, j)]
        == e.mem[e.sp + arm_frame_bytes(false, f) + 4 * j] by {
        let r = arm_model::pool_reg(false, j);
        assert(rs[j] == r);
        assert(d2.regs[rs[j]] == d1.mem[d1.sp + 4 * j]);
        assert(!two.contains(r));
    }
    g
}

} // verus!
