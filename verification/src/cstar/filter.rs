//! Scheduling filter on IR.
//!
//! The filter looks for loops, puts prefetches in front of loops that access
//! memory, notes worst-case execution times, and embeds symbol offsets for
//! patches.  It works on functions annotated with `pipeline`, `isr_group`,
//! `patch` or `repo`, inserts scheduling instructions only, and removes and
//! rewrites nothing.

use vstd::prelude::*;
use crate::cstar::raw::common::{bump, bumped};
use crate::ir::{
    copy_hinted, copy_strings, Insn, insns, ir_fns, IrFn, IrFunction, IrMod, IrModule, Operand,
    Opnd, opt_opnd, StaticInsn,
};
use crate::text::{dec, push_dec, push_wide, same, text, texts};

verus! {

// ---------------------------------------------------------------------------
// Loops
// ---------------------------------------------------------------------------

/// A loop.
#[derive(Debug)]
pub struct LoopInfo {
    /// The label that the loop jumps back to.
    pub head_label: String,
    /// The first label behind the loop.
    pub exit_label: String,
    /// The position of the head, and that of the exit label or else of the
    /// backward jump.
    pub body_start: usize,
    pub body_end: usize,
    /// Whether the loop loads or stores.
    pub has_memory_access: bool,
    /// The number of instructions that take time.
    pub insn_count: usize,
}

/// What a loop is.
pub struct LoopShape {
    pub head: Seq<char>,
    pub exit: Seq<char>,
    pub start: usize,
    pub end: usize,
    pub memory: bool,
    pub count: usize,
}

impl View for LoopInfo {
    type V = LoopShape;

    open spec fn view(&self) -> LoopShape {
        LoopShape {
            head: self.head_label@,
            exit: self.exit_label@,
            start: self.body_start,
            end: self.body_end,
            memory: self.has_memory_access,
            count: self.insn_count,
        }
    }
}

/// What the loops of a list are.
pub open spec fn shapes(v: Seq<LoopInfo>) -> Seq<LoopShape> {
    Seq::new(v.len(), |i: int| v[i]@)
}

/// The instruction is a label of the given name.
pub open spec fn is_label(n: Insn, l: Seq<char>) -> bool {
    n matches Insn::Label(x) && x == l
}

/// The last position of a label among the first `k` instructions.
pub open spec fn label_position(ns: Seq<Insn>, l: Seq<char>, k: int) -> Option<int>
    decreases k,
{
    if k <= 0 || k > ns.len() {
        None
    } else if is_label(ns[k - 1], l) {
        Some(k - 1)
    } else {
        label_position(ns, l, k - 1)
    }
}

/// The first position of any label, at or behind `i`.
pub open spec fn next_label(ns: Seq<Insn>, i: int) -> Option<int>
    decreases ns.len() - i,
{
    if i < 0 || i >= ns.len() {
        None
    } else if ns[i] is Label {
        Some(i)
    } else {
        next_label(ns, i + 1)
    }
}

/// The instruction loads from or stores to memory.
pub open spec fn is_memory(n: Insn) -> bool {
    n is Load || n is Store
}

/// The instruction takes time: it is no label, comment, source position or
/// scheduling instruction.
pub open spec fn takes_time(n: Insn) -> bool {
    !(n is Label || n is Comment || n is SrcLoc || n is Prefetch || n is PipelineMarker
        || n is IsrEntry || n is WcetNote || n is DiffMeta)
}

/// The number of instructions that take time in `ns[from..to]`.
pub open spec fn time_count(ns: Seq<Insn>, from: int, to: int) -> nat
    decreases to - from,
{
    if from >= to {
        0
    } else {
        time_count(ns, from, to - 1) + (if takes_time(ns[to - 1]) {
            1nat
        } else {
            0
        })
    }
}

/// Some instruction in `ns[from..to]` accesses memory.
pub open spec fn any_memory(ns: Seq<Insn>, from: int, to: int) -> bool {
    exists|j: int| from <= j < to && #[trigger] is_memory(ns[j])
}

/// The loop that the jump at position `i` closes.
pub open spec fn loop_at(ns: Seq<Insn>, i: int) -> Option<LoopShape> {
    match ns[i] {
        Insn::Jump { target } => match label_position(ns, target, ns.len() as int) {
            Some(h) => if h < i {
                Some(
                    LoopShape {
                        head: target,
                        exit: match next_label(ns, i + 1) {
                            Some(j) => ns[j]->Label_0,
                            None => Seq::empty(),
                        },
                        start: h as usize,
                        end: match next_label(ns, i + 1) {
                            Some(j) => j as usize,
                            None => i as usize,
                        },
                        memory: any_memory(ns, h, i + 1),
                        count: time_count(ns, h, i + 1) as usize,
                    },
                )
            } else {
                None
            },
            None => None,
        },
        _ => None,
    }
}

/// The loops that the first `k` instructions close.
pub open spec fn loops_of(ns: Seq<Insn>, k: nat) -> Seq<LoopShape>
    decreases k,
{
    if k == 0 || k > ns.len() {
        Seq::empty()
    } else {
        let prev = loops_of(ns, (k - 1) as nat);
        match loop_at(ns, k - 1) {
            Some(l) => prev.push(l),
            None => prev,
        }
    }
}

/// The last position of a label.
fn find_label(ns: &Vec<StaticInsn>, l: &str) -> (r: Option<usize>)
    ensures
        match r {
            Some(h) => label_position(insns(ns@), l@, ns@.len() as int) == Some(h as int) && h
                < ns@.len(),
            None => label_position(insns(ns@), l@, ns@.len() as int) is None,
        },
{
    let mut k: usize = ns.len();
    while k > 0
        invariant
            k <= ns@.len(),
            label_position(insns(ns@), l@, ns@.len() as int) == label_position(
                insns(ns@),
                l@,
                k as int,
            ),
        decreases k,
    {
        match &ns[k - 1] {
            StaticInsn::Label(x) => {
                if same(x.as_str(), l) {
                    return Some(k - 1);
                }
            },
            _ => {},
        }
        k = k - 1;
    }
    None
}

/// The first position of any label, at or behind `from`.
fn find_next_label(ns: &Vec<StaticInsn>, from: usize) -> (r: Option<usize>)
    requires
        from <= ns@.len(),
    ensures
        match r {
            Some(j) => next_label(insns(ns@), from as int) == Some(j as int) && from <= j
                < ns@.len() && insns(ns@)[j as int] is Label,
            None => next_label(insns(ns@), from as int) is None,
        },
{
    let mut i: usize = from;
    while i < ns.len()
        invariant
            from <= i <= ns@.len(),
            next_label(insns(ns@), from as int) == next_label(insns(ns@), i as int),
        decreases ns@.len() - i,
    {
        match &ns[i] {
            StaticInsn::Label(_) => {
                return Some(i);
            },
            _ => {},
        }
        i = i + 1;
    }
    None
}

/// Whether an instruction takes time.
fn costs_time(n: &StaticInsn) -> (r: bool)
    ensures
        r == takes_time(n@),
{
    match n {
        StaticInsn::Label(_)
        | StaticInsn::Comment(_)
        | StaticInsn::SrcLoc { .. }
        | StaticInsn::Prefetch { .. }
        | StaticInsn::PipelineMarker { .. }
        | StaticInsn::IsrEntry { .. }
        | StaticInsn::WcetNote { .. }
        | StaticInsn::DiffMeta { .. } => false,
        _ => true,
    }
}

/// Whether an instruction accesses memory.
fn accesses_memory(n: &StaticInsn) -> (r: bool)
    ensures
        r == is_memory(n@),
{
    match n {
        StaticInsn::Load { .. } | StaticInsn::Store { .. } => true,
        _ => false,
    }
}

/// The loop from the head at `h` to the jump at `i`.
fn measure_loop(ns: &Vec<StaticInsn>, target: &str, h: usize, i: usize) -> (r: LoopInfo)
    requires
        h < i < ns@.len(),
    ensures
        r@ == (LoopShape {
            head: target@,
            exit: match next_label(insns(ns@), i + 1) {
                Some(j) => insns(ns@)[j]->Label_0,
                None => Seq::empty(),
            },
            start: h,
            end: match next_label(insns(ns@), i + 1) {
                Some(j) => j as usize,
                None => i,
            },
            memory: any_memory(insns(ns@), h as int, i + 1),
            count: time_count(insns(ns@), h as int, i + 1) as usize,
        }),
{
    let total: usize = ns.len();
    let mut exit_label = String::new();
    assert(exit_label@ =~= Seq::<char>::empty());
    let mut body_end: usize = i;
    match find_next_label(ns, i + 1) {
        Some(j) => {
            body_end = j;
            match &ns[j] {
                StaticInsn::Label(l) => {
                    exit_label = l.clone();
                },
                _ => {},
            }
        },
        None => {},
    }
    let mut memory: bool = false;
    let mut count: usize = 0;
    let mut j: usize = h;
    while j <= i
        invariant
            h <= j <= i + 1,
            i < total,
            total == ns@.len(),
            count == time_count(insns(ns@), h as int, j as int),
            count <= j - h,
            memory == any_memory(insns(ns@), h as int, j as int),
        decreases i + 1 - j,
    {
        assert(insns(ns@)[j as int] == ns@[j as int]@);
        let ghost before = memory;
        if accesses_memory(&ns[j]) {
            memory = true;
        }
        proof {
            assert(before ==> any_memory(insns(ns@), h as int, j + 1));
            if is_memory(insns(ns@)[j as int]) {
                assert(any_memory(insns(ns@), h as int, j + 1));
            }
            if any_memory(insns(ns@), h as int, j + 1) && !is_memory(insns(ns@)[j as int]) {
                let w = choose|w: int| h <= w < j + 1 && #[trigger] is_memory(insns(ns@)[w]);
                assert(h <= w < j);
            }
        }
        if costs_time(&ns[j]) {
            count = count + 1;
        }
        j = j + 1;
    }
    LoopInfo {
        head_label: text(target),
        exit_label,
        body_start: h,
        body_end,
        has_memory_access: memory,
        insn_count: count,
    }
}

/// Finds the loops of a function body: every backward jump closes one.
pub fn detect_loops(body: &Vec<StaticInsn>) -> (r: Vec<LoopInfo>)
    ensures
        shapes(r@) == loops_of(insns(body@), body@.len()),
{
    let mut out: Vec<LoopInfo> = Vec::new();
    let mut i: usize = 0;
    assert(shapes(out@) =~= Seq::<LoopShape>::empty());
    while i < body.len()
        invariant
            i <= body@.len(),
            shapes(out@) == loops_of(insns(body@), i as nat),
        decreases body@.len() - i,
    {
        let ghost before = shapes(out@);
        assert(insns(body@)[i as int] == body@[i as int]@);
        match &body[i] {
            StaticInsn::Jump { target } => match find_label(body, target.as_str()) {
                Some(h) => {
                    if h < i {
                        let l = measure_loop(body, target.as_str(), h, i);
                        assert(loop_at(insns(body@), i as int) == Some(l@));
                        out.push(l);
                        assert(shapes(out@) =~= before.push(l@));
                    }
                },
                None => {},
            },
            _ => {},
        }
        i = i + 1;
    }
    out
}

// ---------------------------------------------------------------------------
// The filter
// ---------------------------------------------------------------------------

/// What the filter does.
#[derive(Debug, Clone, Copy, PartialEq, Eq, Structural)]
pub struct FilterConfig {
    /// Whether to insert prefetches.
    pub enable_prefetch: bool,
    /// Whether to note worst-case execution times.
    pub enable_wcet: bool,
    /// Whether to embed symbol offsets.
    pub enable_diff: bool,
    /// The instructions that a loop may take.
    pub wcet_budget: u64,
    /// How far ahead to prefetch.
    pub prefetch_distance: usize,
}

impl Default for FilterConfig {
    fn default() -> (r: Self)
        ensures
            r == (FilterConfig {
                enable_prefetch: true,
                enable_wcet: true,
                enable_diff: true,
                wcet_budget: 1000,
                prefetch_distance: 4,
            }),
    {
        FilterConfig {
            enable_prefetch: true,
            enable_wcet: true,
            enable_diff: true,
            wcet_budget: 1000,
            prefetch_distance: 4,
        }
    }
}

/// What the annotations of a function ask for.
#[derive(Clone, Copy, PartialEq, Eq, Structural)]
pub struct Asked {
    pub pipeline: bool,
    pub isr: bool,
    pub patch: bool,
    pub repo: bool,
}

/// What annotations ask for.
pub open spec fn asked(anns: Seq<Seq<char>>) -> Asked {
    Asked {
        pipeline: anns.contains("pipeline"@),
        isr: anns.contains("isr_group"@) || anns.contains("isr"@),
        patch: anns.contains("patch"@),
        repo: anns.contains("repo"@) || anns.contains("package"@),
    }
}

/// Some annotation has the given name.
fn has_annotation(anns: &Vec<String>, name: &str) -> (r: bool)
    ensures
        r == texts(anns@).contains(name@),
{
    let mut i: usize = 0;
    while i < anns.len()
        invariant
            i <= anns@.len(),
            forall|j: int| 0 <= j < i ==> texts(anns@)[j] != name@,
        decreases anns@.len() - i,
    {
        if same(anns[i].as_str(), name) {
            assert(texts(anns@)[i as int] == name@);
            return true;
        }
        i = i + 1;
    }
    false
}

/// What annotations ask for.
fn read_asked(anns: &Vec<String>) -> (r: Asked)
    ensures
        r == asked(texts(anns@)),
{
    Asked {
        pipeline: has_annotation(anns, "pipeline"),
        isr: has_annotation(anns, "isr_group") || has_annotation(anns, "isr"),
        patch: has_annotation(anns, "patch"),
        repo: has_annotation(anns, "repo") || has_annotation(anns, "package"),
    }
}

/// The last one among the first `k` loops that starts at position `i`.
pub open spec fn loop_head(ls: Seq<LoopShape>, i: int, k: nat) -> Option<LoopShape>
    decreases k,
{
    if k == 0 || k > ls.len() {
        None
    } else if ls[k - 1].start == i {
        Some(ls[k - 1])
    } else {
        loop_head(ls, i, (k - 1) as nat)
    }
}

/// The address of the first memory access in `ns[i..=last]`.
pub open spec fn first_address(ns: Seq<Insn>, i: int, last: int) -> Option<Opnd>
    decreases last + 1 - i,
{
    if i < 0 || i > last {
        None
    } else {
        match ns[i] {
            Insn::Load { dst, addr, size, ty } => Some(addr),
            Insn::Store { addr, value, size, ty } => Some(addr),
            _ => first_address(ns, i + 1, last),
        }
    }
}

/// The instructions with the prefetch in front of a loop.
pub open spec fn with_prefetch(out: Seq<Insn>, ns: Seq<Insn>, l: LoopShape) -> Seq<Insn> {
    let o = out.push(
        Insn::Comment(
            "cstar: pipeline loop @"@ + l.head + " ("@ + dec(l.count as nat) + " insns, mem=yes)"@,
        ),
    );
    match first_address(ns, l.start as int, l.end as int) {
        Some(addr) => o.push(Insn::Prefetch { addr, hint: "pldl1keep"@ }),
        None => o,
    }
}

/// The instructions with the execution time of a loop.
pub open spec fn with_wcet(out: Seq<Insn>, l: LoopShape, budget: u64) -> Seq<Insn> {
    let o = out.push(Insn::WcetNote { cycles: l.count as u64, budget });
    if l.count > budget {
        o.push(
            Insn::Comment(
                "cstar: WCET OVERFLOW in loop @"@ + l.head + " ("@ + dec(l.count as nat) + " > "@ + dec(budget as nat) + ")"@,
            ),
        )
    } else {
        o
    }
}

/// The instructions with what comes in front of the one at position `i`.
pub open spec fn with_notes(
    out: Seq<Insn>,
    ns: Seq<Insn>,
    i: int,
    ls: Seq<LoopShape>,
    a: Asked,
    cfg: FilterConfig,
) -> Seq<Insn> {
    let o1 = match loop_head(ls, i, ls.len()) {
        Some(l) => {
            let p = if cfg.enable_prefetch && a.pipeline && l.memory {
                with_prefetch(out, ns, l)
            } else {
                out
            };
            if cfg.enable_wcet && a.isr {
                with_wcet(p, l, cfg.wcet_budget)
            } else {
                p
            }
        },
        None => out,
    };
    match ns[i] {
        Insn::Call { dst, func, args, ty } => if cfg.enable_diff && a.patch {
            o1.push(
                Insn::DiffMeta { symbol: func, offset: (i as usize as u64).wrapping_mul(8) },
            )
        } else {
            o1
        },
        _ => o1,
    }
}

/// The instructions with the first `k` ones of a body and what comes in front
/// of each.
pub open spec fn woven(
    out: Seq<Insn>,
    ns: Seq<Insn>,
    k: nat,
    ls: Seq<LoopShape>,
    a: Asked,
    cfg: FilterConfig,
) -> Seq<Insn>
    decreases k,
{
    if k == 0 || k > ns.len() {
        out
    } else {
        with_notes(woven(out, ns, (k - 1) as nat, ls, a, cfg), ns, k - 1, ls, a, cfg).push(
            ns[k - 1],
        )
    }
}

/// The instructions at the entry of a function.
pub open spec fn entry_marks(name: Seq<char>, a: Asked) -> Seq<Insn> {
    let o = if a.pipeline {
        Seq::empty().push(Insn::PipelineMarker { name })
    } else {
        Seq::empty()
    };
    if a.isr {
        o.push(Insn::IsrEntry { group: name, priority: 0 })
    } else {
        o
    }
}

/// The instructions of the first `k` loops, taken together.
pub open spec fn loop_total(ls: Seq<LoopShape>, k: nat) -> nat
    decreases k,
{
    if k == 0 || k > ls.len() {
        0
    } else {
        loop_total(ls, (k - 1) as nat) + ls[k - 1].count as nat
    }
}

/// The instructions of a function behind the filter.
pub open spec fn filtered(f: IrFn, cfg: FilterConfig) -> Seq<Insn> {
    let a = asked(f.annotations);
    if !a.pipeline && !a.isr && !a.patch && !a.repo {
        f.body
    } else {
        let ls = loops_of(f.body, f.body.len());
        let o = woven(entry_marks(f.name, a), f.body, f.body.len(), ls, a, cfg);
        if cfg.enable_wcet && a.isr {
            o.push(
                Insn::Comment(
                    "cstar: function "@ + f.name + " total WCET ~= "@ + dec(loop_total(ls, ls.len()) + f.body.len()) + " cycles ("@ + dec(ls.len()) + " loops)"@,
                ),
            )
        } else {
            o
        }
    }
}

/// Appends an instruction.
fn push_insn(out: &mut Vec<StaticInsn>, n: StaticInsn)
    ensures
        insns(final(out)@) == insns(old(out)@).push(n@),
{
    out.push(n);
    assert(insns(out@) =~= insns(old(out)@).push(n@));
}

/// The last loop that starts at position `i`.
fn find_loop_head<'a>(ls: &'a Vec<LoopInfo>, i: usize) -> (r: Option<&'a LoopInfo>)
    ensures
        match r {
            Some(l) => loop_head(shapes(ls@), i as int, ls@.len()) == Some(l@) && ls@.contains(*l),
            None => loop_head(shapes(ls@), i as int, ls@.len()) is None,
        },
{
    let mut k: usize = ls.len();
    while k > 0
        invariant
            k <= ls@.len(),
            loop_head(shapes(ls@), i as int, ls@.len()) == loop_head(
                shapes(ls@),
                i as int,
                k as nat,
            ),
        decreases k,
    {
        assert(shapes(ls@)[k - 1] == ls@[k - 1]@);
        if ls[k - 1].body_start == i {
            return Some(&ls[k - 1]);
        }
        k = k - 1;
    }
    None
}

/// The address of the first memory access in `ns[from..=last]`.
fn find_first_memory_addr(ns: &Vec<StaticInsn>, from: usize, last: usize) -> (r: Option<Operand>)
    requires
        last < ns@.len(),
    ensures
        opt_opnd(r) == first_address(insns(ns@), from as int, last as int),
{
    let total: usize = ns.len();
    let mut i: usize = from;
    while i <= last
        invariant
            from <= i,
            last < total,
            total == ns@.len(),
            first_address(insns(ns@), from as int, last as int) == first_address(
                insns(ns@),
                i as int,
                last as int,
            ),
        decreases last + 1 - i,
    {
        match &ns[i] {
            StaticInsn::Load { addr, .. } => {
                return Some(addr.copy());
            },
            StaticInsn::Store { addr, .. } => {
                return Some(addr.copy());
            },
            _ => {},
        }
        i = i + 1;
    }
    None
}

/// Appends the prefetch in front of a loop.
fn push_prefetch(out: &mut Vec<StaticInsn>, ns: &Vec<StaticInsn>, l: &LoopInfo)
    requires
        l.body_end < ns@.len(),
    ensures
        insns(final(out)@) == with_prefetch(insns(old(out)@), insns(ns@), l@),
{
    let mut c = text("cstar: pipeline loop @");
    c.append(l.head_label.as_str());
    c.append(" (");
    push_dec(&mut c, l.insn_count as u64);
    c.append(" insns, mem=yes)");
    push_insn(out, StaticInsn::Comment(c));
    match find_first_memory_addr(ns, l.body_start, l.body_end) {
        Some(addr) => {
            push_insn(out, StaticInsn::Prefetch { addr, hint: text("pldl1keep") });
        },
        None => {},
    }
}

/// Appends the execution time of a loop.
fn push_wcet(out: &mut Vec<StaticInsn>, l: &LoopInfo, budget: u64)
    ensures
        insns(final(out)@) == with_wcet(insns(old(out)@), l@, budget),
{
    let cycles: u64 = l.insn_count as u64;
    push_insn(out, StaticInsn::WcetNote { cycles, budget });
    if cycles > budget {
        let mut c = text("cstar: WCET OVERFLOW in loop @");
        c.append(l.head_label.as_str());
        c.append(" (");
        push_dec(&mut c, cycles);
        c.append(" > ");
        push_dec(&mut c, budget);
        c.append(")");
        push_insn(out, StaticInsn::Comment(c));
    }
}

/// Appends what comes in front of the instruction at position `i`.
fn push_notes(
    out: &mut Vec<StaticInsn>,
    ns: &Vec<StaticInsn>,
    i: usize,
    ls: &Vec<LoopInfo>,
    a: Asked,
    cfg: &FilterConfig,
)
    requires
        i < ns@.len(),
        forall|j: int| 0 <= j < ls@.len() ==> (#[trigger] ls@[j]).body_end < ns@.len(),
    ensures
        insns(final(out)@) == with_notes(
            insns(old(out)@),
            insns(ns@),
            i as int,
            shapes(ls@),
            a,
            *cfg,
        ),
{
    match find_loop_head(ls, i) {
        Some(l) => {
            proof {
                let j = ls@.index_of(*l);
                assert(ls@[j] == *l);
            }
            if cfg.enable_prefetch && a.pipeline && l.has_memory_access {
                push_prefetch(out, ns, l);
            }
            if cfg.enable_wcet && a.isr {
                push_wcet(out, l, cfg.wcet_budget);
            }
        },
        None => {},
    }
    if cfg.enable_diff && a.patch {
        match &ns[i] {
            StaticInsn::Call { func, .. } => {
                push_insn(
                    out,
                    StaticInsn::DiffMeta {
                        symbol: func.clone(),
                        offset: (i as u64).wrapping_mul(8),
                    },
                );
            },
            _ => {},
        }
    }
}

/// The positions of a loop lie in the body.
proof fn lemma_loop_ends(ns: Seq<Insn>, k: nat)
    requires
        k <= ns.len(),
        ns.len() <= usize::MAX,
    ensures
        forall|j: int|
            0 <= j < loops_of(ns, k).len() ==> (#[trigger] loops_of(ns, k)[j]).end < ns.len(),
    decreases k,
{
    if k > 0 {
        lemma_loop_ends(ns, (k - 1) as nat);
        lemma_next_label(ns, k as int);
        let prev = loops_of(ns, (k - 1) as nat);
        assert forall|j: int| 0 <= j < loops_of(ns, k).len() implies (#[trigger] loops_of(
            ns,
            k,
        )[j]).end < ns.len() by {
            if j < prev.len() {
                assert(loops_of(ns, k)[j] == prev[j]);
            }
        }
    }
}

/// The next label lies in the body.
proof fn lemma_next_label(ns: Seq<Insn>, i: int)
    ensures
        next_label(ns, i) matches Some(j) ==> i <= j < ns.len(),
    decreases ns.len() - i,
{
    if 0 <= i < ns.len() && !(ns[i] is Label) {
        lemma_next_label(ns, i + 1);
    }
}

/// A copy of instructions.
fn copy_insns(ns: &Vec<StaticInsn>) -> (r: Vec<StaticInsn>)
    ensures
        insns(r@) == insns(ns@),
{
    let mut out: Vec<StaticInsn> = Vec::new();
    let mut i: usize = 0;
    while i < ns.len()
        invariant
            i <= ns@.len(),
            out@.len() == i,
            forall|j: int| 0 <= j < i ==> (#[trigger] out@[j])@ == ns@[j]@,
        decreases ns@.len() - i,
    {
        out.push(ns[i].copy());
        i = i + 1;
    }
    assert(insns(out@) =~= insns(ns@));
    out
}

/// The instructions of loops, taken together.
fn total_of_loops(ls: &Vec<LoopInfo>) -> (r: u128)
    ensures
        r == loop_total(shapes(ls@), ls@.len()),
        r <= ls@.len() * 0xffff_ffff_ffff_ffff,
{
    let mut total: u128 = 0;
    let mut k: usize = 0;
    while k < ls.len()
        invariant
            k <= ls@.len(),
            total == loop_total(shapes(ls@), k as nat),
            total <= k * 0xffff_ffff_ffff_ffff,
        decreases ls@.len() - k,
    {
        assert(shapes(ls@)[k as int] == ls@[k as int]@);
        assert(k * 0xffff_ffff_ffff_ffff <= 0xffff_ffff_ffff_fffe_0000_0000_0000_0001)
            by (nonlinear_arith)
            requires
                k <= 0xffff_ffff_ffff_ffff,
        ;
        total = total + ls[k].insn_count as u128;
        k = k + 1;
    }
    total
}

/// Filters a function: the body with scheduling instructions, or the body as it
/// is where no annotation asks for any.
pub fn filter_function(f: &IrFunction, cfg: &FilterConfig) -> (r: Vec<StaticInsn>)
    ensures
        insns(r@) == filtered(f@, *cfg),
{
    let a: Asked = read_asked(&f.annotations);
    if !a.pipeline && !a.isr && !a.patch && !a.repo {
        return copy_insns(&f.body);
    }
    let mut out: Vec<StaticInsn> = Vec::new();
    let ls = detect_loops(&f.body);
    let size: usize = f.body.len();
    let loop_count: usize = ls.len();
    proof {
        lemma_loop_ends(insns(f.body@), f.body@.len());
        assert forall|j: int| 0 <= j < ls@.len() implies (#[trigger] ls@[j]).body_end
            < f.body@.len() by {
            assert(shapes(ls@)[j] == ls@[j]@);
        }
    }
    assert(insns(out@) =~= Seq::<Insn>::empty());
    if a.pipeline {
        push_insn(&mut out, StaticInsn::PipelineMarker { name: f.name.clone() });
    }
    if a.isr {
        push_insn(&mut out, StaticInsn::IsrEntry { group: f.name.clone(), priority: 0 });
    }
    let ghost marks = insns(out@);
    let mut i: usize = 0;
    while i < f.body.len()
        invariant
            i <= f.body@.len(),
            forall|j: int| 0 <= j < ls@.len() ==> (#[trigger] ls@[j]).body_end < f.body@.len(),
            insns(out@) == woven(marks, insns(f.body@), i as nat, shapes(ls@), a, *cfg),
        decreases f.body@.len() - i,
    {
        push_notes(&mut out, &f.body, i, &ls, a, cfg);
        push_insn(&mut out, f.body[i].copy());
        i = i + 1;
    }
    if cfg.enable_wcet && a.isr {
        let sum: u128 = total_of_loops(&ls);
        assert(loop_count * 0xffff_ffff_ffff_ffff <= 0xffff_ffff_ffff_fffe_0000_0000_0000_0001)
            by (nonlinear_arith)
            requires
                loop_count <= 0xffff_ffff_ffff_ffff,
        ;
        let total: u128 = sum + size as u128;
        let mut c = text("cstar: function ");
        c.append(f.name.as_str());
        c.append(" total WCET ~= ");
        push_wide(&mut c, total);
        c.append(" cycles (");
        push_dec(&mut c, loop_count as u64);
        c.append(" loops)");
        push_insn(&mut out, StaticInsn::Comment(c));
    }
    out
}

/// The functions of a module behind the filter.
pub open spec fn filtered_fns(fs: Seq<IrFn>, cfg: FilterConfig) -> Seq<IrFn> {
    Seq::new(fs.len(), |i: int| IrFn { body: filtered(fs[i], cfg), ..fs[i] })
}

/// Filters a module.
pub fn filter_module(m: &IrModule, cfg: &FilterConfig) -> (r: IrModule)
    ensures
        r@ == (IrMod { functions: filtered_fns(m@.functions, *cfg), ..m@ }),
{
    let mut fs: Vec<IrFunction> = Vec::new();
    let mut i: usize = 0;
    while i < m.functions.len()
        invariant
            i <= m.functions@.len(),
            fs@.len() == i,
            forall|j: int|
                0 <= j < i ==> (#[trigger] fs@[j])@ == (IrFn {
                    body: filtered(m.functions@[j]@, *cfg),
                    ..m.functions@[j]@
                }),
        decreases m.functions@.len() - i,
    {
        let f = &m.functions[i];
        let body = filter_function(f, cfg);
        fs.push(
            IrFunction {
                name: f.name.clone(),
                params: copy_hinted(&f.params),
                param_regs: copy_strings(&f.param_regs),
                return_ty: f.return_ty,
                body,
                is_main: f.is_main,
                annotations: copy_strings(&f.annotations),
                locals: copy_hinted(&f.locals),
            },
        );
        i = i + 1;
    }
    assert(ir_fns(fs@) =~= filtered_fns(m@.functions, *cfg));
    IrModule {
        functions: fs,
        string_pool: copy_strings(&m.string_pool),
        globals: copy_hinted(&m.globals),
        entry: match &m.entry {
            Some(e) => Some(e.clone()),
            None => None,
        },
    }
}

// ---------------------------------------------------------------------------
// What the filter keeps
// ---------------------------------------------------------------------------

/// The instruction schedules or documents; it does no work of the program.
pub open spec fn is_scheduling(n: Insn) -> bool {
    n is Prefetch || n is PipelineMarker || n is IsrEntry || n is WcetNote || n is DiffMeta
        || n is Comment
}

/// `out` holds the instructions of `body` in their order, with scheduling
/// instructions among them.
pub open spec fn interleaves(body: Seq<Insn>, out: Seq<Insn>) -> bool
    decreases out.len(),
{
    if out.len() == 0 {
        body.len() == 0
    } else {
        ||| body.len() > 0 && out.last() == body.last() && interleaves(
            body.drop_last(),
            out.drop_last(),
        )
        ||| is_scheduling(out.last()) && interleaves(body, out.drop_last())
    }
}

/// The instructions that do the work of a program.
pub open spec fn working(ns: Seq<Insn>) -> Seq<Insn>
    decreases ns.len(),
{
    if ns.len() == 0 {
        Seq::empty()
    } else if is_scheduling(ns.last()) {
        working(ns.drop_last())
    } else {
        working(ns.drop_last()).push(ns.last())
    }
}

/// A scheduling instruction can be added.
proof fn lemma_inserted(body: Seq<Insn>, out: Seq<Insn>, n: Insn)
    requires
        interleaves(body, out),
        is_scheduling(n),
    ensures
        interleaves(body, out.push(n)),
{
    assert(out.push(n).drop_last() =~= out);
}

/// An instruction of the body can be added.
proof fn lemma_kept(body: Seq<Insn>, out: Seq<Insn>, n: Insn)
    requires
        interleaves(body, out),
    ensures
        interleaves(body.push(n), out.push(n)),
{
    assert(out.push(n).drop_last() =~= out);
    assert(body.push(n).drop_last() =~= body);
}

/// What comes in front of an instruction is scheduling.
proof fn lemma_notes(
    body: Seq<Insn>,
    out: Seq<Insn>,
    ns: Seq<Insn>,
    i: int,
    ls: Seq<LoopShape>,
    a: Asked,
    cfg: FilterConfig,
)
    requires
        interleaves(body, out),
    ensures
        interleaves(body, with_notes(out, ns, i, ls, a, cfg)),
{
    let o1 = match loop_head(ls, i, ls.len()) {
        Some(l) => {
            let c = Insn::Comment(
                "cstar: pipeline loop @"@ + l.head + " ("@ + dec(l.count as nat) + " insns, mem=yes)"@,
            );
            let p = if cfg.enable_prefetch && a.pipeline && l.memory {
                lemma_inserted(body, out, c);
                match first_address(ns, l.start as int, l.end as int) {
                    Some(addr) => {
                        lemma_inserted(
                            body,
                            out.push(c),
                            Insn::Prefetch { addr, hint: "pldl1keep"@ },
                        );
                    },
                    None => {},
                }
                with_prefetch(out, ns, l)
            } else {
                out
            };
            let w = Insn::WcetNote { cycles: l.count as u64, budget: cfg.wcet_budget };
            let v = Insn::Comment(
                "cstar: WCET OVERFLOW in loop @"@ + l.head + " ("@ + dec(l.count as nat) + " > "@ + dec(cfg.wcet_budget as nat) + ")"@,
            );
            if cfg.enable_wcet && a.isr {
                lemma_inserted(body, p, w);
                lemma_inserted(body, p.push(w), v);
                with_wcet(p, l, cfg.wcet_budget)
            } else {
                p
            }
        },
        None => out,
    };
    assert(interleaves(body, o1));
    match ns[i] {
        Insn::Call { dst, func, args, ty } => {
            lemma_inserted(
                body,
                o1,
                Insn::DiffMeta { symbol: func, offset: (i as usize as u64).wrapping_mul(8) },
            );
        },
        _ => {},
    }
}

/// A woven body holds the body.
proof fn lemma_woven(
    marks: Seq<Insn>,
    ns: Seq<Insn>,
    k: nat,
    ls: Seq<LoopShape>,
    a: Asked,
    cfg: FilterConfig,
)
    requires
        k <= ns.len(),
        interleaves(Seq::empty(), marks),
    ensures
        interleaves(ns.take(k as int), woven(marks, ns, k, ls, a, cfg)),
    decreases k,
{
    if k == 0 {
        assert(ns.take(0) =~= Seq::<Insn>::empty());
    } else {
        lemma_woven(marks, ns, (k - 1) as nat, ls, a, cfg);
        let prev = woven(marks, ns, (k - 1) as nat, ls, a, cfg);
        lemma_notes(ns.take(k - 1), prev, ns, k - 1, ls, a, cfg);
        lemma_kept(ns.take(k - 1), with_notes(prev, ns, k - 1, ls, a, cfg), ns[k - 1]);
        assert(ns.take(k as int) =~= ns.take(k - 1).push(ns[k - 1]));
    }
}

/// Interleaved instructions do the same work.
proof fn lemma_same_work(body: Seq<Insn>, out: Seq<Insn>)
    requires
        interleaves(body, out),
    ensures
        working(out) == working(body),
        out.len() >= body.len(),
    decreases out.len(),
{
    if out.len() > 0 {
        if body.len() > 0 && out.last() == body.last() && interleaves(
            body.drop_last(),
            out.drop_last(),
        ) {
            lemma_same_work(body.drop_last(), out.drop_last());
        } else {
            lemma_same_work(body, out.drop_last());
        }
    }
}

/// The filter only inserts: every instruction of the body stays, unchanged and
/// in its order, and whatever is added is a scheduling instruction.  So the
/// filtered function does the work of the function.
pub proof fn law_filter_only_inserts(f: IrFn, cfg: FilterConfig)
    ensures
        interleaves(f.body, filtered(f, cfg)),
        working(filtered(f, cfg)) == working(f.body),
        filtered(f, cfg).len() >= f.body.len(),
{
    let a = asked(f.annotations);
    let ls = loops_of(f.body, f.body.len());
    let none = Seq::<Insn>::empty();
    let marker = Insn::PipelineMarker { name: f.name };
    let entry = Insn::IsrEntry { group: f.name, priority: 0 };
    lemma_inserted(none, none, marker);
    lemma_inserted(none, none, entry);
    lemma_inserted(none, none.push(marker), entry);
    let marks = entry_marks(f.name, a);
    assert(interleaves(none, marks));
    lemma_woven(marks, f.body, f.body.len(), ls, a, cfg);
    assert(f.body.take(f.body.len() as int) =~= f.body);
    let o = woven(marks, f.body, f.body.len(), ls, a, cfg);
    if !a.pipeline && !a.isr && !a.patch && !a.repo {
        lemma_itself(f.body);
    } else if cfg.enable_wcet && a.isr {
        lemma_inserted(f.body, o, filtered(f, cfg).last());
    }
    lemma_same_work(f.body, filtered(f, cfg));
}

/// Instructions interleave themselves.
proof fn lemma_itself(ns: Seq<Insn>)
    ensures
        interleaves(ns, ns),
    decreases ns.len(),
{
    if ns.len() > 0 {
        lemma_itself(ns.drop_last());
    }
}

/// A function that no annotation marks for scheduling passes through unchanged.
pub proof fn law_unmarked_functions_pass_through(f: IrFn, cfg: FilterConfig)
    requires
        !f.annotations.contains("pipeline"@),
        !f.annotations.contains("isr_group"@),
        !f.annotations.contains("isr"@),
        !f.annotations.contains("patch"@),
        !f.annotations.contains("repo"@),
        !f.annotations.contains("package"@),
    ensures
        filtered(f, cfg) == f.body,
{
}

/// The position of a label is that of a label of the name.
proof fn lemma_label_position(ns: Seq<Insn>, l: Seq<char>, k: int)
    ensures
        label_position(ns, l, k) matches Some(h) ==> 0 <= h < k && k <= ns.len() && ns[h]
            == Insn::Label(l),
    decreases k,
{
    if 0 < k <= ns.len() && !is_label(ns[k - 1], l) {
        lemma_label_position(ns, l, k - 1);
    }
}

/// The jump at `i` goes back to the head of the loop `l`.
pub open spec fn closes(ns: Seq<Insn>, i: int, l: LoopShape) -> bool {
    &&& ns[i] == Insn::Jump { target: l.head }
    &&& l.start < i
    &&& ns[l.start as int] == Insn::Label(l.head)
}

/// Loops are backward jumps: each loop starts at the label of its head, which a
/// jump behind it goes back to.
pub proof fn law_loops_are_backward_jumps(ns: Seq<Insn>, k: nat, j: int)
    requires
        k <= ns.len() <= usize::MAX,
        0 <= j < loops_of(ns, k).len(),
    ensures
        exists|i: int| 0 <= i < k && #[trigger] closes(ns, i, loops_of(ns, k)[j]),
    decreases k,
{
    let prev = loops_of(ns, (k - 1) as nat);
    if j < prev.len() {
        law_loops_are_backward_jumps(ns, (k - 1) as nat, j);
        let i = choose|i: int| 0 <= i < k - 1 && #[trigger] closes(ns, i, prev[j]);
        assert(closes(ns, i, loops_of(ns, k)[j]));
    } else {
        match ns[k - 1] {
            Insn::Jump { target } => {
                lemma_label_position(ns, target, ns.len() as int);
            },
            _ => {},
        }
        assert(closes(ns, k - 1, loops_of(ns, k)[j]));
    }
}

/// In a function marked as an interrupt handler, every loop head is preceded by
/// a note of the loop's execution time, where the filter notes such times.
pub proof fn law_loops_of_handlers_are_timed(
    out: Seq<Insn>,
    ns: Seq<Insn>,
    i: int,
    ls: Seq<LoopShape>,
    a: Asked,
    cfg: FilterConfig,
)
    requires
        a.isr,
        cfg.enable_wcet,
        loop_head(ls, i, ls.len()) is Some,
    ensures
        ({
            let l = loop_head(ls, i, ls.len())->Some_0;
            with_notes(out, ns, i, ls, a, cfg).contains(
                Insn::WcetNote { cycles: l.count as u64, budget: cfg.wcet_budget },
            )
        }),
{
    let l = loop_head(ls, i, ls.len())->Some_0;
    let p = if cfg.enable_prefetch && a.pipeline && l.memory {
        with_prefetch(out, ns, l)
    } else {
        out
    };
    let w = Insn::WcetNote { cycles: l.count as u64, budget: cfg.wcet_budget };
    let all = with_notes(out, ns, i, ls, a, cfg);
    assert(with_wcet(p, l, cfg.wcet_budget)[p.len() as int] == w);
    assert(all[p.len() as int] == w);
}

// ---------------------------------------------------------------------------
// The report
// ---------------------------------------------------------------------------

/// A report: its text, and the numbers of loops, of loops with memory access
/// and of long loops so far.
pub struct Report {
    pub out: Seq<char>,
    pub loops: usize,
    pub memory: usize,
    pub long: usize,
}

/// The words for a loop with or without memory access.
pub open spec fn memory_words(b: bool) -> Seq<char> {
    if b {
        "yes (DMA candidate)"@
    } else {
        "no"@
    }
}

/// The report with one more loop.
#[verifier::opaque]
pub open spec fn report_loop(r: Report, l: LoopShape) -> Report {
    let o = r.out + "  loop @"@ + l.head + " ["@ + dec(l.start as nat) + ".."@ + dec(l.end as nat) + "] "@ + dec(l.count as nat) + " insns, mem="@ + memory_words(l.memory) + "\n"@;
    Report {
        out: if l.count > 100 {
            o + "    ⚠ WCET estimate "@ + dec(l.count as nat) + " > 100 (consider splitting)\n"@
        } else {
            o
        },
        loops: bump(r.loops),
        memory: if l.memory {
            bump(r.memory)
        } else {
            r.memory
        },
        long: if l.count > 100 {
            bump(r.long)
        } else {
            r.long
        },
    }
}

/// The report with the first `k` loops.
pub open spec fn report_loops(r: Report, ls: Seq<LoopShape>, k: nat) -> Report
    decreases k,
{
    if k == 0 || k > ls.len() {
        r
    } else {
        report_loop(report_loops(r, ls, (k - 1) as nat), ls[k - 1])
    }
}

/// The report with one more function; one without loops leaves no trace.
#[verifier::opaque]
pub open spec fn report_fn(r: Report, f: IrFn) -> Report {
    let ls = loops_of(f.body, f.body.len());
    if ls.len() == 0 {
        r
    } else {
        let q = report_loops(
            Report {
                out: r.out + "function "@ + f.name + " ("@ + dec(ls.len()) + " loops):\n"@,
                ..r
            },
            ls,
            ls.len(),
        );
        Report { out: q.out + "\n"@, ..q }
    }
}

/// The report with the first `k` functions.
pub open spec fn report_fns(r: Report, fs: Seq<IrFn>, k: nat) -> Report
    decreases k,
{
    if k == 0 || k > fs.len() {
        r
    } else {
        report_fn(report_fns(r, fs, (k - 1) as nat), fs[k - 1])
    }
}

/// The text of the report on a module.
pub open spec fn report_text(m: IrMod) -> Seq<char> {
    let r = report_fns(
        Report {
            out: "=== Cstar IR Analysis Report ===\n\n"@,
            loops: 0,
            memory: 0,
            long: 0,
        },
        m.functions,
        m.functions.len(),
    );
    r.out + "=== Summary ===\ntotal loops: "@ + dec(r.loops as nat) + "\nDMA candidates: "@ + dec(r.memory as nat) + "\nWCET warnings: "@ + dec(r.long as nat) + "\n"@
}

/// A report under construction.
struct Reporter {
    out: String,
    loops: usize,
    memory: usize,
    long: usize,
}

impl View for Reporter {
    type V = Report;

    closed spec fn view(&self) -> Report {
        Report { out: self.out@, loops: self.loops, memory: self.memory, long: self.long }
    }
}

impl Reporter {
    /// Adds a loop.
    fn add_loop(&mut self, l: &LoopInfo)
        ensures
            final(self)@ == report_loop(old(self)@, l@),
    {
        reveal(report_loop);
        self.loops = bumped(self.loops);
        let m = if l.has_memory_access {
            self.memory = bumped(self.memory);
            "yes (DMA candidate)"
        } else {
            "no"
        };
        self.out.append("  loop @");
        self.out.append(l.head_label.as_str());
        self.out.append(" [");
        push_dec(&mut self.out, l.body_start as u64);
        self.out.append("..");
        push_dec(&mut self.out, l.body_end as u64);
        self.out.append("] ");
        push_dec(&mut self.out, l.insn_count as u64);
        self.out.append(" insns, mem=");
        self.out.append(m);
        self.out.append("\n");
        if l.insn_count > 100 {
            self.long = bumped(self.long);
            self.out.append("    ⚠ WCET estimate ");
            push_dec(&mut self.out, l.insn_count as u64);
            self.out.append(" > 100 (consider splitting)\n");
        }
    }

    /// Adds a function.
    fn add_function(&mut self, f: &IrFunction)
        ensures
            final(self)@ == report_fn(old(self)@, f@),
    {
        reveal(report_fn);
        let ls = detect_loops(&f.body);
        if ls.len() == 0 {
            return;
        }
        self.out.append("function ");
        self.out.append(f.name.as_str());
        self.out.append(" (");
        push_dec(&mut self.out, ls.len() as u64);
        self.out.append(" loops):\n");
        let ghost start = self@;
        let mut k: usize = 0;
        while k < ls.len()
            invariant
                k <= ls@.len(),
                self@ == report_loops(start, shapes(ls@), k as nat),
            decreases ls@.len() - k,
        {
            self.add_loop(&ls[k]);
            k = k + 1;
        }
        self.out.append("\n");
    }
}

/// Reports on the loops of a module, without changing it.
pub fn analyze_module(m: &IrModule) -> (r: String)
    ensures
        r@ == report_text(m@),
{
    let mut rep = Reporter {
        out: text("=== Cstar IR Analysis Report ===\n\n"),
        loops: 0,
        memory: 0,
        long: 0,
    };
    let ghost start = rep@;
    let mut k: usize = 0;
    while k < m.functions.len()
        invariant
            k <= m.functions@.len(),
            rep@ == report_fns(start, ir_fns(m.functions@), k as nat),
        decreases m.functions@.len() - k,
    {
        rep.add_function(&m.functions[k]);
        k = k + 1;
    }
    rep.out.append("=== Summary ===\ntotal loops: ");
    push_dec(&mut rep.out, rep.loops as u64);
    rep.out.append("\nDMA candidates: ");
    push_dec(&mut rep.out, rep.memory as u64);
    rep.out.append("\nWCET warnings: ");
    push_dec(&mut rep.out, rep.long as u64);
    rep.out.append("\n");
    rep.out
}

} // verus!
