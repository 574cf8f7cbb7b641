//! Lowering of declarations and programs to PIR.

use vstd::prelude::*;
use crate::ast::{
    Annotation, AnnotationArg, ConditionalCompile, Expr, ExternFnDef, FnDef, FnParam, Program, Stmt,
    StringPart, StructDef, TopLevel, TypeExpr, UnaryOp,
};
use crate::cstar::annotations::{
    annotated, annotation_arg_value, annotation_int, annotation_isr, annotation_patch,
    annotation_size, annotation_string, arg_lookup, arg_name, arg_or, arg_or_default,
    find_annotation, find_named, int_annotation, is_named, is_plain, isr_annotation, lookup_arg,
    name_of_arg, named, number_of, parse_hex_or_dec, parse_size_string, patch_annotation,
    size_annotation, size_of, string_annotation, string_parts_to_plain, value_text,
};
use crate::cstar::hash::{hash_of, stable_hash};
use crate::cstar::lower::{
    lower_list, lower_stmt, lower_stmt_into, lower_stmts, physical_type, pir_type_from_type_expr,
    stmt_kind, stmt_label, type_expr_is_ptr, written_as_ptr,
};
use crate::cstar::pir::{
    Declared, Function, Isr, IsrEntry, MemoryMap, no_memory, no_program, Node, node_of, nodes_of,
    Operand, opt_view, params_of, Patch, PatchPlan, Pir, PirExtern, PirFunction, PirNode,
    PirOperand, PirProgram, PirType, push_node, SchedulerConfig, Vector, VectorTableEntry,
};
use crate::cstar::raw::common::{float_truthy, parts_text};
use crate::error::{CompilerError, fail, outcome};
use crate::text::{
    begins, cat, dec, int_dec, int_text, lines, lines_of, numbered, parse_i64, parse_signed,
    parse_u64, parse_unsigned, push_dec, push_int, push_wide, same, split, split_on, starts_with,
    strip_ends, strip_left, strip_right, text, TextList, texts, trim, trimmed, uppercase,
};

verus! {

// ---------------------------------------------------------------------------
// Worst-case execution time
// ---------------------------------------------------------------------------

/// The greater of two numbers.
pub open spec fn at_least(n: nat, m: nat) -> nat {
    if n < m {
        m
    } else {
        n
    }
}

/// The cycles that a node takes at most; a loop is taken to run a thousand
/// times.
pub open spec fn node_cycles(n: Node) -> nat
    decreases n,
{
    match n {
        Node::AsmBlock { template, inputs, outputs } => at_least(lines(template).len(), 1) * 4,
        Node::Call { dst, func, args, ret_ty } => 12,
        Node::Load { dst, ptr, ty, volatile } => 3,
        Node::Store { ptr, value, ty, volatile } => 3,
        Node::Loop { label, body } => 16 + total_cycles(body, body.len()) * 1000,
        Node::WhileLoop { label, condition, body } => 16 + total_cycles(body, body.len()) * 1000,
        Node::Pipeline { function, priority, dma_stage, compute_stage } => 20,
        Node::Prefetch { ptr, hint, stride } => 2,
        _ => 1,
    }
}

/// The cycles that the first `k` nodes take at most.
pub open spec fn total_cycles(ns: Seq<Node>, k: nat) -> nat
    decreases ns, k,
{
    if k == 0 || k > ns.len() {
        0
    } else {
        total_cycles(ns, (k - 1) as nat) + node_cycles(ns[k - 1])
    }
}

/// The number, or the greatest 64-bit number where it is greater.
pub open spec fn clamped(n: nat) -> u64 {
    if n > u64::MAX {
        u64::MAX
    } else {
        n as u64
    }
}

/// The cycles that a node takes at most.
fn estimate_node_cycles(n: &PirNode) -> (r: u64)
    ensures
        r == clamped(node_cycles(n@)),
    decreases n, 1nat,
{
    match n {
        PirNode::AsmBlock { template, .. } => {
            let ls = lines_of(template.as_str());
            let count: u128 = if ls.len() < 1 {
                1
            } else {
                ls.len() as u128
            };
            clamp(count * 4)
        },
        PirNode::Call { .. } => 12,
        PirNode::Load { .. } => 3,
        PirNode::Store { .. } => 3,
        PirNode::Loop { body, .. } => {
            let c: u64 = estimate_wcet_cycles(body);
            clamp(16 + c as u128 * 1000)
        },
        PirNode::WhileLoop { body, .. } => {
            let c: u64 = estimate_wcet_cycles(body);
            clamp(16 + c as u128 * 1000)
        },
        PirNode::Pipeline { .. } => 20,
        PirNode::Prefetch { .. } => 2,
        _ => 1,
    }
}

/// The number as 64 bits.
fn clamp(n: u128) -> (r: u64)
    ensures
        r == clamped(n as nat),
{
    if n > u64::MAX as u128 {
        u64::MAX
    } else {
        n as u64
    }
}

/// Estimates the worst-case execution time of nodes.
pub fn estimate_wcet_cycles(ns: &Vec<PirNode>) -> (r: u64)
    ensures
        r == clamped(total_cycles(nodes_of(ns@), ns@.len())),
    decreases ns@, 0nat,
{
    let mut total: u64 = 0;
    let mut k: usize = 0;
    while k < ns.len()
        invariant
            k <= ns@.len(),
            total == clamped(total_cycles(nodes_of(ns@), k as nat)),
        decreases ns@.len() - k,
    {
        let c: u64 = estimate_node_cycles(&ns[k]);
        assert(nodes_of(ns@)[k as int] == node_of(ns@[k as int]));
        total = clamp(total as u128 + c as u128);
        k = k + 1;
    }
    total
}

// ---------------------------------------------------------------------------
// Configuration annotations
// ---------------------------------------------------------------------------

/// The program with one more vector table entry.
pub open spec fn with_vector(p: Pir, v: Vector) -> Pir {
    (Pir { vector_table: p.vector_table.push(v), ..p }).linked()
}

/// The pieces among the first `k` that hold more than white space, trimmed.
pub open spec fn trimmed_pieces(ps: Seq<Seq<char>>, k: nat) -> Seq<Seq<char>>
    decreases k,
{
    if k == 0 || k > ps.len() {
        Seq::empty()
    } else {
        let prev = trimmed_pieces(ps, (k - 1) as nat);
        let t = trimmed(ps[k - 1]);
        if t.len() == 0 {
            prev
        } else {
            prev.push(t)
        }
    }
}

/// What stands between brackets, at its commas.
pub open spec fn bracketed(v: Seq<char>) -> Seq<Seq<char>> {
    split(strip_right(strip_left(v, '['), ']'), ',')
}

/// What stands between brackets, at its commas.
fn split_bracketed(v: &str) -> (r: TextList)
    ensures
        r@ == bracketed(v@),
{
    let s = strip_ends(v, '[', ']');
    split_on(s.as_str(), ',')
}

/// The handlers of an interrupt list such as `[uart_isr, timer_isr]`.
pub open spec fn irq_handlers(v: Seq<char>) -> Seq<Seq<char>> {
    trimmed_pieces(bracketed(v), bracketed(v).len())
}

/// The handlers of an interrupt list.
fn parse_irq_handlers(v: &str) -> (r: TextList)
    ensures
        r@ == irq_handlers(v@),
{
    let ps = split_bracketed(v);
    let mut out = TextList::new();
    let mut k: usize = 0;
    while k < ps.len()
        invariant
            k <= ps@.len(),
            out@ == trimmed_pieces(ps@, k as nat),
        decreases ps@.len() - k,
    {
        let t = trim(ps.get(k));
        if !t.as_str().is_empty() {
            out.push(t);
        }
        k = k + 1;
    }
    out
}

/// The program with the entries of the first `k` external interrupt handlers.
pub open spec fn irq_entries(p: Pir, hs: Seq<Seq<char>>, k: nat) -> Pir
    decreases k,
{
    if k == 0 || k > hs.len() {
        p
    } else {
        with_vector(
            irq_entries(p, hs, (k - 1) as nat),
            Vector {
                name: "irq"@ + dec((k - 1) as nat),
                handler: hs[k - 1],
                irq_number: Some((k - 1) as usize as i64),
            },
        )
    }
}

/// The program with the entries that the first `k` arguments of
/// `@vector_table` give.
pub open spec fn vector_args(p: Pir, args: Seq<AnnotationArg>, k: nat) -> Pir
    decreases k,
{
    if k == 0 || k > args.len() {
        p
    } else {
        let prev = vector_args(p, args, (k - 1) as nat);
        let v = value_text(args[k - 1]);
        if named(args[k - 1], "irq"@) {
            irq_entries(prev, irq_handlers(v), irq_handlers(v).len())
        } else {
            with_vector(
                prev,
                Vector { name: arg_name(args[k - 1]), handler: v, irq_number: None },
            )
        }
    }
}

/// Adds the entries of external interrupt handlers.
fn push_irq_entries(p: &mut PirProgram, hs: &TextList)
    ensures
        final(p)@ == irq_entries(old(p)@, hs@, hs@.len()),
{
    let mut k: usize = 0;
    while k < hs.len()
        invariant
            k <= hs@.len(),
            p@ == irq_entries(old(p)@, hs@, k as nat),
        decreases hs@.len() - k,
    {
        p.push_vector_entry(
            VectorTableEntry {
                name: numbered("irq", k as u64),
                handler: text(hs.get(k)),
                irq_number: Some(k as i64),
            },
        );
        k = k + 1;
    }
}

/// Adds the entries that the arguments of `@vector_table` give.
fn push_vector_args(p: &mut PirProgram, args: &Vec<AnnotationArg>)
    ensures
        final(p)@ == vector_args(old(p)@, args@, args@.len()),
{
    let mut k: usize = 0;
    while k < args.len()
        invariant
            k <= args@.len(),
            p@ == vector_args(old(p)@, args@, k as nat),
        decreases args@.len() - k,
    {
        let v = annotation_arg_value(&args[k]);
        if is_named(&args[k], "irq") {
            let hs = parse_irq_handlers(v.as_str());
            push_irq_entries(p, &hs);
        } else {
            p.push_vector_entry(
                VectorTableEntry { name: name_of_arg(&args[k]), handler: v, irq_number: None },
            );
        }
        k = k + 1;
    }
}

/// The origin and the length of a memory region `[origin, end]`.
#[verifier::opaque]
pub open spec fn region(v: Seq<char>) -> Option<(u64, u64)> {
    let ps = bracketed(v);
    if ps.len() == 2 {
        let origin = number_of(trimmed(ps[0]));
        let end = number_of(trimmed(ps[1]));
        Some(
            (
                origin,
                if end > origin {
                    (end - origin) as u64
                } else {
                    0
                },
            ),
        )
    } else {
        None
    }
}

/// The origin and the length of a memory region.
fn parse_region(v: &str) -> (r: Option<(u64, u64)>)
    ensures
        r == region(v@),
{
    reveal(region);
    let ps = split_bracketed(v);
    if ps.len() != 2 {
        return None;
    }
    let a = trim(ps.get(0));
    let b = trim(ps.get(1));
    let origin: u64 = parse_hex_or_dec(a.as_str());
    let end: u64 = parse_hex_or_dec(b.as_str());
    Some((origin, end.saturating_sub(origin)))
}

/// The memory map with the region that an argument gives.
pub open spec fn with_region(m: MemoryMap, a: AnnotationArg) -> MemoryMap {
    match region(value_text(a)) {
        None => m,
        Some(r) => if arg_name(a) == "flash"@ {
            MemoryMap { flash_origin: r.0, flash_length: r.1, ..m }
        } else if arg_name(a) == "sram"@ {
            MemoryMap { sram_origin: r.0, sram_length: r.1, ..m }
        } else if arg_name(a) == "mmio"@ {
            MemoryMap { mmio_origin: Some(r.0), mmio_length: Some(r.1), ..m }
        } else {
            m
        },
    }
}

/// The memory map that the first `k` arguments of `@memory_map` give.
pub open spec fn memory_args(args: Seq<AnnotationArg>, k: nat) -> MemoryMap
    decreases k,
{
    if k == 0 || k > args.len() {
        no_memory()
    } else {
        with_region(memory_args(args, (k - 1) as nat), args[k - 1])
    }
}

/// Reads the arguments of `@memory_map`.
fn parse_memory_map(args: &Vec<AnnotationArg>) -> (m: MemoryMap)
    ensures
        m == memory_args(args@, args@.len()),
{
    let mut m = MemoryMap::default();
    let mut k: usize = 0;
    while k < args.len()
        invariant
            k <= args@.len(),
            m == memory_args(args@, k as nat),
        decreases args@.len() - k,
    {
        let n = name_of_arg(&args[k]);
        let v = annotation_arg_value(&args[k]);
        match parse_region(v.as_str()) {
            Some(r) => {
                if same(n.as_str(), "flash") {
                    m.flash_origin = r.0;
                    m.flash_length = r.1;
                } else if same(n.as_str(), "sram") {
                    m.sram_origin = r.0;
                    m.sram_length = r.1;
                } else if same(n.as_str(), "mmio") {
                    m.mmio_origin = Some(r.0);
                    m.mmio_length = Some(r.1);
                }
            },
            None => {},
        }
        k = k + 1;
    }
    m
}

/// The number in decimal digits that `v` is, or else `default`.
pub open spec fn number_or(v: Seq<char>, default: u64) -> u64 {
    match parse_unsigned(v, 10) {
        Some(n) => n,
        None => default,
    }
}

/// The scheduler configuration that the first `k` arguments of `@scheduler`
/// give.
pub open spec fn scheduler_args(args: Seq<AnnotationArg>, k: nat) -> SchedulerConfig
    decreases k,
{
    if k == 0 || k > args.len() {
        SchedulerConfig { tick_ms: 1, max_tasks: 8, stack_size: 2048 }
    } else {
        let prev = scheduler_args(args, (k - 1) as nat);
        let n = arg_name(args[k - 1]);
        let v = value_text(args[k - 1]);
        if n == "tick_ms"@ {
            SchedulerConfig { tick_ms: number_or(v, 1), ..prev }
        } else if n == "max_tasks"@ {
            SchedulerConfig { max_tasks: number_or(v, 8), ..prev }
        } else if n == "stack_size"@ {
            SchedulerConfig { stack_size: size_of(uppercase(trimmed(v))), ..prev }
        } else {
            prev
        }
    }
}

/// The number in decimal digits that `v` is, or else `default`.
fn parse_number_or(v: &str, default: u64) -> (r: u64)
    ensures
        r == number_or(v@, default),
{
    match parse_u64(v, 10) {
        Some(n) => n,
        None => default,
    }
}

/// Reads the arguments of `@scheduler`.
fn parse_scheduler(args: &Vec<AnnotationArg>) -> (c: SchedulerConfig)
    ensures
        c == scheduler_args(args@, args@.len()),
{
    let mut c = SchedulerConfig { tick_ms: 1, max_tasks: 8, stack_size: 2048 };
    let mut k: usize = 0;
    while k < args.len()
        invariant
            k <= args@.len(),
            c == scheduler_args(args@, k as nat),
        decreases args@.len() - k,
    {
        let n = name_of_arg(&args[k]);
        let v = annotation_arg_value(&args[k]);
        if same(n.as_str(), "tick_ms") {
            c.tick_ms = parse_number_or(v.as_str(), 1);
        } else if same(n.as_str(), "max_tasks") {
            c.max_tasks = parse_number_or(v.as_str(), 8);
        } else if same(n.as_str(), "stack_size") {
            c.stack_size = parse_size_string(v.as_str());
        }
        k = k + 1;
    }
    c
}

/// The arguments of the first annotation of the given name.
pub open spec fn args_of(anns: Seq<Annotation>, name: Seq<char>) -> Seq<AnnotationArg> {
    anns[find_named(anns, name, 0)->Some_0].arguments@
}

/// The program with the critical section and the breakpoint that a function
/// asks for.
pub open spec fn with_guards(p: Pir, anns: Seq<Annotation>, name: Seq<char>, at: Option<i64>) -> Pir {
    let p1 = if annotated(anns, "critical"@) {
        Pir { critical_sections: p.critical_sections.push(name), ..p }
    } else {
        p
    };
    match at {
        Some(a) => Pir { hw_breakpoints: p1.hw_breakpoints.push((a as u64, name)), ..p1 },
        None => p1,
    }
}

/// The program with the target configuration that the annotations of a
/// function give: vector table, memory map, stack and heap sizes, scheduler.
pub open spec fn with_target(p: Pir, anns: Seq<Annotation>) -> Pir {
    let p1 = if annotated(anns, "vector_table"@) {
        vector_args(p, args_of(anns, "vector_table"@), args_of(anns, "vector_table"@).len())
    } else {
        p
    };
    let p2 = if annotated(anns, "memory_map"@) {
        (Pir {
            memory_map: Some(
                memory_args(args_of(anns, "memory_map"@), args_of(anns, "memory_map"@).len()),
            ),
            ..p1
        }).linked()
    } else {
        p1
    };
    let p3 = match size_annotation(anns, "stack"@, 0) {
        Some(n) => (Pir { stack_size: Some(n), ..p2 }).linked(),
        None => p2,
    };
    let p4 = match size_annotation(anns, "heap"@, 0) {
        Some(n) => (Pir { heap_size: Some(n), ..p3 }).linked(),
        None => p3,
    };
    if annotated(anns, "scheduler"@) {
        (Pir {
            scheduler: Some(
                scheduler_args(args_of(anns, "scheduler"@), args_of(anns, "scheduler"@).len()),
            ),
            ..p4
        }).linked()
    } else {
        p4
    }
}

/// Records the critical section and the breakpoint of a function.
fn record_guards(p: &mut PirProgram, anns: &Vec<Annotation>, name: &str, at: Option<i64>)
    ensures
        final(p)@ == with_guards(old(p)@, anns@, name@, at),
{
    match find_annotation(anns, "critical") {
        Some(_) => {
            p.push_critical_section(text(name));
        },
        None => {},
    }
    match at {
        Some(a) => {
            p.push_hw_breakpoint(a as u64, text(name));
        },
        None => {},
    }
}

/// Records the target configuration that the annotations of a function give.
fn record_target(p: &mut PirProgram, anns: &Vec<Annotation>)
    ensures
        final(p)@ == with_target(old(p)@, anns@),
{
    match find_annotation(anns, "vector_table") {
        Some(a) => {
            push_vector_args(p, &a.arguments);
        },
        None => {},
    }
    match find_annotation(anns, "memory_map") {
        Some(a) => {
            p.set_memory_map(parse_memory_map(&a.arguments));
        },
        None => {},
    }
    match annotation_size(anns, "stack") {
        Some(n) => {
            p.set_stack_size(n);
        },
        None => {},
    }
    match annotation_size(anns, "heap") {
        Some(n) => {
            p.set_heap_size(n);
        },
        None => {},
    }
    match find_annotation(anns, "scheduler") {
        Some(a) => {
            p.set_scheduler(parse_scheduler(&a.arguments));
        },
        None => {},
    }
}

// ---------------------------------------------------------------------------
// Functions
// ---------------------------------------------------------------------------

/// The sizes of the files that programs embed.
pub struct FileSizes {
    items: Vec<(String, u64)>,
}

impl View for FileSizes {
    type V = Seq<(Seq<char>, u64)>;

    closed spec fn view(&self) -> Seq<(Seq<char>, u64)> {
        Seq::new(self.items@.len(), |i: int| (self.items@[i].0@, self.items@[i].1))
    }
}

/// The size of the file at `path`, at or behind position `i`; zero where it is
/// not known.
pub open spec fn file_size(sizes: Seq<(Seq<char>, u64)>, path: Seq<char>, i: int) -> u64
    decreases sizes.len() - i,
{
    if i < 0 || i >= sizes.len() {
        0
    } else if sizes[i].0 == path {
        sizes[i].1
    } else {
        file_size(sizes, path, i + 1)
    }
}

impl FileSizes {
    /// No file is known.
    pub fn new() -> (r: Self)
        ensures
            r@ == Seq::<(Seq<char>, u64)>::empty(),
    {
        let r = FileSizes { items: Vec::new() };
        assert(r@ =~= Seq::<(Seq<char>, u64)>::empty());
        r
    }

    /// Notes the size of a file.
    pub fn note(&mut self, path: &str, size: u64)
        ensures
            final(self)@ == old(self)@.push((path@, size)),
    {
        self.items.push((text(path), size));
        assert(self@ =~= old(self)@.push((path@, size)));
    }

    /// The size of a file; zero where it is not known.
    pub fn size(&self, path: &str) -> (n: u64)
        ensures
            n == file_size(self@, path@, 0),
    {
        let mut i: usize = 0;
        while i < self.items.len()
            invariant
                i <= self.items@.len(),
                self@.len() == self.items@.len(),
                file_size(self@, path@, 0) == file_size(self@, path@, i as int),
            decreases self.items@.len() - i,
        {
            if same(self.items[i].0.as_str(), path) {
                return self.items[i].1;
            }
            i = i + 1;
        }
        0
    }
}

/// The first parameter at or behind `i` that is written as a pointer.
pub open spec fn first_pointer(params: Seq<FnParam>, i: int) -> Option<Operand>
    decreases params.len() - i,
{
    if i < 0 || i >= params.len() {
        None
    } else if params[i].type_annotation matches Some(t) && written_as_ptr(t) {
        Some(Operand::Var(params[i].name.name@))
    } else {
        first_pointer(params, i + 1)
    }
}

/// The first parameter that is written as a pointer.
fn find_pointer_param(params: &Vec<FnParam>) -> (r: Option<PirOperand>)
    ensures
        match r {
            Some(o) => first_pointer(params@, 0) == Some(o@),
            None => first_pointer(params@, 0) is None,
        },
{
    let mut i: usize = 0;
    while i < params.len()
        invariant
            i <= params@.len(),
            first_pointer(params@, 0) == first_pointer(params@, i as int),
        decreases params@.len() - i,
    {
        match &params[i].type_annotation {
            Some(t) => {
                if type_expr_is_ptr(t) {
                    return Some(PirOperand::Var(params[i].name.name.clone()));
                }
            },
            None => {},
        }
        i = i + 1;
    }
    None
}

/// The stride of a prefetch annotation, 64 where it gives none.
pub open spec fn stride_of(args: Seq<AnnotationArg>) -> i64 {
    match arg_lookup(args, "stride"@, args.len()) {
        Some(s) => match parse_signed(s) {
            Some(v) => v,
            None => 64,
        },
        None => 64,
    }
}

/// The stride of a prefetch annotation.
fn read_stride(args: &Vec<AnnotationArg>) -> (r: i64)
    ensures
        r == stride_of(args@),
{
    match lookup_arg(args, "stride") {
        Some(s) => match parse_i64(s.as_str()) {
            Some(v) => v,
            None => 64,
        },
        None => 64,
    }
}

/// The nodes in front of the body of a function: its pipeline and prefetch
/// markers.
pub open spec fn schedule_nodes(f: FnDef) -> Seq<Node> {
    let anns = f.annotations@;
    let n = f.name.name@;
    let b = if annotated(anns, "pipeline"@) {
        seq![
            Node::Pipeline {
                function: n,
                priority: arg_or(args_of(anns, "pipeline"@), "priority"@, "normal"@),
                dma_stage: n + "_dma_window"@,
                compute_stage: n + "_compute_window"@,
            },
        ]
    } else {
        Seq::empty()
    };
    if annotated(anns, "prefetch"@) {
        b.push(
            Node::Prefetch {
                ptr: first_pointer(f.params@, 0),
                hint: arg_or(args_of(anns, "prefetch"@), "hint"@, "sequential"@),
                stride: stride_of(args_of(anns, "prefetch"@)),
            },
        )
    } else {
        b
    }
}

/// Starts the body of a function with its pipeline and prefetch markers.
fn lower_schedule(f: &FnDef) -> (r: Vec<PirNode>)
    ensures
        nodes_of(r@) == schedule_nodes(*f),
{
    let mut out: Vec<PirNode> = Vec::new();
    assert(nodes_of(out@) =~= Seq::<Node>::empty());
    match find_annotation(&f.annotations, "pipeline") {
        Some(a) => {
            push_node(
                &mut out,
                PirNode::Pipeline {
                    function: f.name.name.clone(),
                    priority: arg_or_default(&a.arguments, "priority", "normal"),
                    dma_stage: cat(f.name.name.as_str(), "_dma_window"),
                    compute_stage: cat(f.name.name.as_str(), "_compute_window"),
                },
            );
            assert(nodes_of(out@) =~= seq![nodes_of(out@)[0]]);
        },
        None => {},
    }
    match find_annotation(&f.annotations, "prefetch") {
        Some(a) => {
            push_node(
                &mut out,
                PirNode::Prefetch {
                    ptr: find_pointer_param(&f.params),
                    hint: arg_or_default(&a.arguments, "hint", "sequential"),
                    stride: read_stride(&a.arguments),
                },
            );
        },
        None => {},
    }
    out
}

/// The nodes with the markers of a patched function, an embedded file and a
/// linked library.
pub open spec fn file_nodes(
    out: Seq<Node>,
    name: Seq<char>,
    patch: Option<(Seq<char>, Seq<char>)>,
    embed: Option<Seq<char>>,
    link: Option<Seq<char>>,
    sizes: Seq<(Seq<char>, u64)>,
) -> Seq<Node> {
    let b1 = match patch {
        Some(p) => out.push(Node::PatchMarker { function: name, base: p.0, output: p.1 }),
        None => out,
    };
    let b2 = match embed {
        Some(path) => b1.push(
            Node::Comment(
                "C* @embed file=\""@ + path + "\" bytes="@ + dec(file_size(sizes, path, 0) as nat) + " (content spliced by linker/loader)"@,
            ),
        ),
        None => b1,
    };
    match link {
        Some(l) => b2.push(Node::Comment("C* @link library=\""@ + l + "\" (passed to linker)"@)),
        None => b2,
    }
}

/// The pair of texts.
pub open spec fn pair_view(p: Option<(String, String)>) -> Option<(Seq<char>, Seq<char>)> {
    match p {
        Some(x) => Some((x.0@, x.1@)),
        None => None,
    }
}

/// Adds the markers of a patched function, an embedded file and a linked
/// library.
fn push_file_nodes(
    out: &mut Vec<PirNode>,
    name: &str,
    patch: &Option<(String, String)>,
    embed: &Option<String>,
    link: &Option<String>,
    sizes: &FileSizes,
)
    ensures
        nodes_of(final(out)@) == file_nodes(
            nodes_of(old(out)@),
            name@,
            pair_view(*patch),
            opt_view(*embed),
            opt_view(*link),
            sizes@,
        ),
{
    match patch {
        Some(p) => {
            push_node(
                out,
                PirNode::PatchMarker {
                    function: text(name),
                    base: p.0.clone(),
                    output: p.1.clone(),
                },
            );
        },
        None => {},
    }
    match embed {
        Some(path) => {
            let n: u64 = sizes.size(path.as_str());
            let mut s = text("C* @embed file=\"");
            s.append(path.as_str());
            s.append("\" bytes=");
            push_dec(&mut s, n);
            s.append(" (content spliced by linker/loader)");
            push_node(out, PirNode::Comment(s));
        },
        None => {},
    }
    match link {
        Some(l) => {
            let mut s = text("C* @link library=\"");
            s.append(l.as_str());
            s.append("\" (passed to linker)");
            push_node(out, PirNode::Comment(s));
        },
        None => {},
    }
}

/// The nodes behind the first `k` statements of a function; a statement that
/// has no physical form leaves a comment.
pub open spec fn body_nodes(out: Seq<Node>, name: Seq<char>, ss: Seq<Stmt>, k: nat) -> Seq<Node>
    decreases k,
{
    if k == 0 || k > ss.len() {
        out
    } else {
        let r = lower_stmt(body_nodes(out, name, ss, (k - 1) as nat), ss[k - 1]);
        match r.error {
            None => r.nodes,
            Some(m) => r.nodes.push(
                Node::Comment(
                    "C* unlowered statement ("@ + stmt_label(ss[k - 1]) + ") in '"@ + name + "': "@ + m,
                ),
            ),
        }
    }
}

/// Lowers the statements of a function.
fn lower_body(out: &mut Vec<PirNode>, name: &str, ss: &Vec<Stmt>)
    ensures
        nodes_of(final(out)@) == body_nodes(nodes_of(old(out)@), name@, ss@, ss@.len()),
{
    let mut k: usize = 0;
    while k < ss.len()
        invariant
            k <= ss@.len(),
            nodes_of(out@) == body_nodes(nodes_of(old(out)@), name@, ss@, k as nat),
        decreases ss@.len() - k,
    {
        match lower_stmt_into(&ss[k], out) {
            Ok(_) => {},
            Err(e) => {
                let mut s = text("C* unlowered statement (");
                s.append(stmt_kind(&ss[k]));
                s.append(") in '");
                s.append(name);
                s.append("': ");
                s.append(e.message());
                push_node(out, PirNode::Comment(s));
            },
        }
        k = k + 1;
    }
}

/// The physical type of a parameter, a 64-bit integer where none is given.
pub open spec fn param_type(p: FnParam) -> Result<PirType, Seq<char>> {
    match p.type_annotation {
        Some(t) => physical_type(t),
        None => Ok(PirType::I64),
    }
}

/// The physical type of a parameter.
fn lower_param_type(p: &FnParam) -> (r: Result<PirType, CompilerError>)
    ensures
        outcome(r) == param_type(*p),
{
    match &p.type_annotation {
        Some(t) => pir_type_from_type_expr(t),
        None => Ok(PirType::I64),
    }
}

/// The types `acc` and those of the parameters at and behind `i`.
pub open spec fn param_types(acc: Seq<PirType>, ps: Seq<FnParam>, i: int) -> Result<
    Seq<PirType>,
    Seq<char>,
>
    decreases ps.len() - i,
{
    if i < 0 || i >= ps.len() {
        Ok(acc)
    } else {
        match param_type(ps[i]) {
            Ok(t) => param_types(acc.push(t), ps, i + 1),
            Err(m) => Err(m),
        }
    }
}

/// What a function that gives types or fails has come to.
pub open spec fn types_outcome(r: Result<Vec<PirType>, CompilerError>) -> Result<
    Seq<PirType>,
    Seq<char>,
> {
    match r {
        Ok(v) => Ok(v@),
        Err(e) => Err(e.text()),
    }
}

/// The physical types of parameters.
fn lower_param_types(ps: &Vec<FnParam>) -> (r: Result<Vec<PirType>, CompilerError>)
    ensures
        types_outcome(r) == param_types(Seq::empty(), ps@, 0),
        r matches Ok(v) ==> v@.len() == ps@.len(),
{
    let mut out: Vec<PirType> = Vec::new();
    let mut i: usize = 0;
    while i < ps.len()
        invariant
            i <= ps@.len(),
            out@.len() == i,
            param_types(Seq::empty(), ps@, 0) == param_types(out@, ps@, i as int),
        decreases ps@.len() - i,
    {
        match lower_param_type(&ps[i]) {
            Ok(t) => {
                out.push(t);
            },
            Err(m) => {
                return Err(m);
            },
        }
        i = i + 1;
    }
    Ok(out)
}

/// Parameter names with their types.
pub open spec fn named_params(ps: Seq<FnParam>, ts: Seq<PirType>) -> Seq<(Seq<char>, PirType)> {
    Seq::new(ps.len(), |i: int| (ps[i].name.name@, ts[i]))
}

/// Parameter names with their types.
fn name_params(ps: &Vec<FnParam>, ts: &Vec<PirType>) -> (r: Vec<(String, PirType)>)
    requires
        ps@.len() == ts@.len(),
    ensures
        params_of(r@) == named_params(ps@, ts@),
{
    let mut out: Vec<(String, PirType)> = Vec::new();
    let mut i: usize = 0;
    while i < ps.len()
        invariant
            i <= ps@.len(),
            ps@.len() == ts@.len(),
            out@.len() == i,
            forall|j: int|
                0 <= j < i ==> (#[trigger] out@[j]).0@ == ps@[j].name.name@ && out@[j].1 == ts@[j],
        decreases ps@.len() - i,
    {
        out.push((ps[i].name.name.clone(), ts[i].copy()));
        i = i + 1;
    }
    assert(params_of(out@) =~= named_params(ps@, ts@));
    out
}

/// The physical type of a return type, void where none is given.
pub open spec fn return_type(t: Option<TypeExpr>) -> Result<PirType, Seq<char>> {
    match t {
        Some(x) => physical_type(x),
        None => Ok(PirType::Void),
    }
}

/// The physical type of a return type.
fn lower_return_type(t: &Option<TypeExpr>) -> (r: Result<PirType, CompilerError>)
    ensures
        outcome(r) == return_type(*t),
{
    match t {
        Some(x) => pir_type_from_type_expr(x),
        None => Ok(PirType::Void),
    }
}

/// The cycles in a budget of `us` microseconds, a hundred to each.
pub open spec fn budget_cycles(us: i64) -> int {
    if us > 0 {
        us * 100
    } else {
        0
    }
}

/// The program with the interrupt record of a handler, unless the handler may
/// take longer than its budget.
pub open spec fn with_isr(p: Pir, name: Seq<char>, isr: Option<(i64, i64)>, body: Seq<Node>) -> Result<
    Pir,
    Seq<char>,
> {
    match isr {
        None => Ok(p),
        Some((priority, budget_us)) => {
            let wcet = clamped(total_cycles(body, body.len()));
            let limit = budget_cycles(budget_us);
            if limit > 0 && wcet > limit {
                Err(
                    "C* @isr_group WCET violation: handler '"@ + name + "' estimated "@ + dec(wcet as nat) + " cycles exceeds budget "@ + int_dec(budget_us as int) + "us ("@ + dec(limit as nat) + " cycles)"@,
                )
            } else {
                Ok(
                    (Pir {
                        isr_entries: p.isr_entries.push(
                            Isr { handler: name, priority, budget_us, wcet_cycles: wcet },
                        ),
                        ..p
                    }).linked(),
                )
            }
        },
    }
}

/// Records an interrupt handler.
fn record_isr(p: &mut PirProgram, name: &str, isr: Option<(i64, i64)>, body: &Vec<PirNode>) -> (r:
    Result<(), CompilerError>)
    ensures
        match r {
            Ok(_) => with_isr(old(p)@, name@, isr, nodes_of(body@)) == Ok::<Pir, Seq<char>>(
                final(p)@,
            ),
            Err(e) => with_isr(old(p)@, name@, isr, nodes_of(body@)) == Err::<Pir, Seq<char>>(
                e.text(),
            ),
        },
        r is Err ==> final(p)@ == old(p)@,
{
    match isr {
        None => Ok(()),
        Some((priority, budget_us)) => {
            let wcet: u64 = estimate_wcet_cycles(body);
            let limit: u128 = if budget_us > 0 {
                budget_us as u128 * 100
            } else {
                0
            };
            if limit > 0 && wcet as u128 > limit {
                let mut m = text("C* @isr_group WCET violation: handler '");
                m.append(name);
                m.append("' estimated ");
                push_dec(&mut m, wcet);
                m.append(" cycles exceeds budget ");
                push_int(&mut m, budget_us);
                m.append("us (");
                push_wide(&mut m, limit);
                m.append(" cycles)");
                return Err(CompilerError::codegen_error(m));
            }
            p.push_isr(
                IsrEntry { handler: text(name), priority, budget_us, wcet_cycles: wcet },
            );
            Ok(())
        },
    }
}

/// The section of a function, `.text` where none is given.
pub open spec fn section_or_text(s: Option<Seq<char>>) -> Seq<char> {
    match s {
        Some(x) => x,
        None => ".text"@,
    }
}

/// The program with the lowered function `f`, whose annotations have been
/// read.
#[verifier::opaque]
pub open spec fn with_function(
    p: Pir,
    f: FnDef,
    section: Option<Seq<char>>,
    isr: Option<(i64, i64)>,
    body: Seq<Node>,
) -> Result<Pir, Seq<char>> {
    let sec = section_or_text(section);
    match param_types(Seq::empty(), f.params@, 0) {
        Err(m) => Err(m),
        Ok(ts) => match return_type(f.return_type) {
            Err(m) => Err(m),
            Ok(ret_ty) => {
                let p1 = if begins(sec, "."@) {
                    p.linked()
                } else {
                    p
                };
                match with_isr(p1, f.name.name@, isr, body) {
                    Err(m) => Err(m),
                    Ok(p2) => Ok(
                        Pir {
                            functions: p2.functions.push(
                                Function {
                                    name: f.name.name@,
                                    params: named_params(f.params@, ts),
                                    ret_ty,
                                    body,
                                    section: Some(sec),
                                    is_pipeline: annotated(f.annotations@, "pipeline"@),
                                    is_prefetch: annotated(f.annotations@, "prefetch"@),
                                },
                            ),
                            ..p2
                        },
                    ),
                }
            },
        },
    }
}

/// What a step that changes a program or fails has come to.
pub open spec fn step(r: Result<(), CompilerError>, p: PirProgram) -> Result<Pir, Seq<char>> {
    match r {
        Ok(_) => Ok(p@),
        Err(e) => Err(e.text()),
    }
}

/// The programs have the same functions and interrupt records.
pub open spec fn same_code(a: Pir, b: Pir) -> bool {
    a.functions == b.functions && a.isr_entries == b.isr_entries
}

/// Adds a lowered function. One that fails leaves no function and no interrupt
/// record behind.
fn record_function(
    p: &mut PirProgram,
    f: &FnDef,
    section: Option<String>,
    isr: Option<(i64, i64)>,
    body: Vec<PirNode>,
) -> (r: Result<(), CompilerError>)
    ensures
        step(r, *final(p)) == with_function(
            old(p)@,
            *f,
            opt_view(section),
            isr,
            nodes_of(body@),
        ),
        r is Err ==> same_code(old(p)@, final(p)@),
{
    reveal(with_function);
    let sec = match section {
        Some(s) => s,
        None => text(".text"),
    };
    let ts = match lower_param_types(&f.params) {
        Ok(ts) => ts,
        Err(m) => {
            return Err(m);
        },
    };
    let params = name_params(&f.params, &ts);
    let ret_ty = match lower_return_type(&f.return_type) {
        Ok(t) => t,
        Err(m) => {
            return Err(m);
        },
    };
    if starts_with(sec.as_str(), ".") {
        p.mark_linker_script();
    }
    match record_isr(p, f.name.name.as_str(), isr, &body) {
        Ok(_) => {},
        Err(m) => {
            return Err(m);
        },
    }
    let is_pipeline: bool = find_annotation(&f.annotations, "pipeline").is_some();
    let is_prefetch: bool = find_annotation(&f.annotations, "prefetch").is_some();
    p.push_function(
        PirFunction {
            name: f.name.name.clone(),
            params,
            ret_ty,
            body,
            section: Some(sec),
            is_pipeline,
            is_prefetch,
        },
    );
    Ok(())
}

/// The program with the plan of a patched function.
pub open spec fn with_patch(p: Pir, name: Seq<char>, patch: Option<(Seq<char>, Seq<char>)>) -> Pir {
    match patch {
        Some(x) => (Pir {
            patch_plans: p.patch_plans.push(Patch { function: name, base: x.0, output: x.1 }),
            ..p
        }).linked(),
        None => p,
    }
}

/// The program with the lowered function `f`, or why it cannot be lowered.
#[verifier::opaque]
pub open spec fn lower_fn(p: Pir, f: FnDef, sizes: Seq<(Seq<char>, u64)>) -> Result<Pir, Seq<char>> {
    let anns = f.annotations@;
    let n = f.name.name@;
    let patch = patch_annotation(anns);
    match string_annotation(anns, "section"@) {
        Err(m) => Err(m),
        Ok(section) => match isr_annotation(anns) {
            Err(m) => Err(m),
            Ok(isr) => match string_annotation(anns, "embed"@) {
                Err(m) => Err(m),
                Ok(embed) => match string_annotation(anns, "link"@) {
                    Err(m) => Err(m),
                    Ok(link) => match int_annotation(anns, "breakpoint"@) {
                        Err(m) => Err(m),
                        Ok(at) => {
                            let p1 = with_target(with_guards(p, anns, n, at), anns);
                            let b1 = file_nodes(schedule_nodes(f), n, patch, embed, link, sizes);
                            let b2 = body_nodes(b1, n, f.body@, f.body@.len());
                            with_function(with_patch(p1, n, patch), f, section, isr, b2)
                        },
                    },
                },
            },
        },
    }
}

/// The guards and the target configuration of a function bring no function and
/// no interrupt record.
proof fn lemma_target_keeps_code(p: Pir, anns: Seq<Annotation>, name: Seq<char>, at: Option<i64>)
    ensures
        same_code(p, with_target(with_guards(p, anns, name, at), anns)),
{
    let q = with_guards(p, anns, name, at);
    let args = args_of(anns, "vector_table"@);
    lemma_vector_args(q, args, args.len());
}

/// Lowers a function. One that fails leaves no function and no interrupt record
/// behind.
pub fn lower_function(p: &mut PirProgram, f: &FnDef, sizes: &FileSizes) -> (r: Result<
    (),
    CompilerError,
>)
    ensures
        step(r, *final(p)) == lower_fn(old(p)@, *f, sizes@),
        r is Err ==> same_code(old(p)@, final(p)@),
{
    reveal(lower_fn);
    let anns = &f.annotations;
    let name = f.name.name.as_str();
    let section = match annotation_string(anns, "section") {
        Ok(s) => s,
        Err(m) => {
            return Err(m);
        },
    };
    let patch = annotation_patch(anns);
    let isr: Option<(i64, i64)> = match annotation_isr(anns) {
        Ok(x) => x,
        Err(m) => {
            return Err(m);
        },
    };
    let embed = match annotation_string(anns, "embed") {
        Ok(s) => s,
        Err(m) => {
            return Err(m);
        },
    };
    let link = match annotation_string(anns, "link") {
        Ok(s) => s,
        Err(m) => {
            return Err(m);
        },
    };
    let at: Option<i64> = match annotation_int(anns, "breakpoint") {
        Ok(a) => a,
        Err(m) => {
            return Err(m);
        },
    };
    proof {
        lemma_target_keeps_code(p@, anns@, name@, at);
    }
    record_guards(p, anns, name, at);
    record_target(p, anns);
    let mut body = lower_schedule(f);
    push_file_nodes(&mut body, name, &patch, &embed, &link, sizes);
    match &patch {
        Some(x) => {
            p.push_patch(
                PatchPlan { function: text(name), base: x.0.clone(), output: x.1.clone() },
            );
        },
        None => {},
    }
    lower_body(&mut body, name, &f.body);
    record_function(p, f, section, isr, body)
}

// ---------------------------------------------------------------------------
// Declarations
// ---------------------------------------------------------------------------

/// The link convention of a declared function.
pub open spec fn link_of(e: ExternFnDef) -> Seq<char> {
    match e.link {
        Some(l) => l@,
        None => match e.fn_def.extern_link {
            Some(l) => l@,
            None => "cstar"@,
        },
    }
}

/// The program with a declared function, or why it cannot be lowered.
#[verifier::opaque]
pub open spec fn lower_declared(p: Pir, e: ExternFnDef) -> Result<Pir, Seq<char>> {
    let link = link_of(e);
    if link != "cstar"@ {
        Err("C* raw backend only accepts extern cstar declarations, got extern "@ + link)
    } else {
        match param_types(Seq::empty(), e.fn_def.params@, 0) {
            Err(m) => Err(m),
            Ok(params) => match return_type(e.fn_def.return_type) {
                Err(m) => Err(m),
                Ok(ret_ty) => Ok(
                    Pir {
                        externs: p.externs.push(
                            Declared { name: e.fn_def.name.name@, params, ret_ty, link },
                        ),
                        ..p
                    },
                ),
            },
        }
    }
}

/// Lowers a declared function.
fn lower_extern(p: &mut PirProgram, e: &ExternFnDef) -> (r: Result<(), CompilerError>)
    ensures
        step(r, *final(p)) == lower_declared(old(p)@, *e),
{
    reveal(lower_declared);
    let link = match &e.link {
        Some(l) => l.clone(),
        None => match &e.fn_def.extern_link {
            Some(l) => l.clone(),
            None => text("cstar"),
        },
    };
    if !same(link.as_str(), "cstar") {
        let m = cat(
            "C* raw backend only accepts extern cstar declarations, got extern ",
            link.as_str(),
        );
        return Err(CompilerError::codegen_error(m));
    }
    let params = match lower_param_types(&e.fn_def.params) {
        Ok(ts) => ts,
        Err(m) => {
            return Err(m);
        },
    };
    let ret_ty = match lower_return_type(&e.fn_def.return_type) {
        Ok(t) => t,
        Err(m) => {
            return Err(m);
        },
    };
    p.push_extern(PirExtern { name: e.fn_def.name.name.clone(), params, ret_ty, link });
    Ok(())
}

/// The bytes of a struct of `n` fields.
pub open spec fn struct_size(n: nat) -> u64 {
    ((if n == 0 {
        1
    } else {
        n
    }) as u64).wrapping_mul(8)
}

/// The program with the layout marker of an aligned struct, or why it cannot be
/// lowered.
#[verifier::opaque]
pub open spec fn lower_aligned(p: Pir, s: StructDef) -> Result<Pir, Seq<char>> {
    let n = s.name.name@;
    match int_annotation(s.annotations@, "align"@) {
        Err(m) => Err(m),
        Ok(None) => Err(
            "C* raw backend only accepts structs marked @align(N); '"@ + n + "' has no physical alignment"@,
        ),
        Ok(Some(align)) => Ok(
            (Pir {
                nodes: p.nodes.push(
                    Node::PackageMarker {
                        name: "struct_"@ + n,
                        partition: "align"@ + int_dec(align as int),
                        size: struct_size(s.fields@.len()),
                        offset: align as u64,
                        checksum: hash_of(n),
                    },
                ),
                ..p
            }).linked(),
        ),
    }
}

/// Lowers an aligned struct.
fn lower_struct(p: &mut PirProgram, s: &StructDef) -> (r: Result<(), CompilerError>)
    ensures
        step(r, *final(p)) == lower_aligned(old(p)@, *s),
{
    reveal(lower_aligned);
    let n = s.name.name.as_str();
    match annotation_int(&s.annotations, "align") {
        Err(m) => Err(m),
        Ok(None) => {
            let mut m = text("C* raw backend only accepts structs marked @align(N); '");
            m.append(n);
            m.append("' has no physical alignment");
            Err(CompilerError::codegen_error(m))
        },
        Ok(Some(align)) => {
            p.mark_linker_script();
            let fields: u64 = if s.fields.len() == 0 {
                1
            } else {
                s.fields.len() as u64
            };
            let a = int_text(align);
            p.push(
                PirNode::PackageMarker {
                    name: cat("struct_", n),
                    partition: cat("align", a.as_str()),
                    size: fields.wrapping_mul(8),
                    offset: align as u64,
                    checksum: stable_hash(n),
                },
            );
            Ok(())
        },
    }
}

/// The program with a raw block at the top level, or why it cannot be lowered.
pub open spec fn lower_raw_block(p: Pir, ss: Seq<Stmt>) -> Result<Pir, Seq<char>> {
    let r = lower_stmts(p.nodes, ss, 0);
    match r.error {
        None => Ok(Pir { nodes: r.nodes, ..p }),
        Some(m) => Err(m),
    }
}

/// Lowers a raw block at the top level.
fn lower_unsafe_block(p: &mut PirProgram, ss: &Vec<Stmt>) -> (r: Result<(), CompilerError>)
    ensures
        step(r, *final(p)) == lower_raw_block(old(p)@, ss@),
{
    lower_list(ss, &mut p.nodes)
}

/// The kind of a declaration.
#[verifier::opaque]
pub open spec fn decl_label(d: TopLevel) -> Seq<char> {
    match d {
        TopLevel::Import => "Import"@,
        TopLevel::Export => "Export"@,
        TopLevel::FnDef(_) => "FnDef"@,
        TopLevel::StructDef(_) => "StructDef"@,
        TopLevel::ClassDef => "ClassDef"@,
        TopLevel::InterfaceDef => "InterfaceDef"@,
        TopLevel::EnumDef => "EnumDef"@,
        TopLevel::TypeAlias => "TypeAlias"@,
        TopLevel::ConstExpr => "ConstExpr"@,
        TopLevel::LazyDef => "LazyDef"@,
        TopLevel::LazyFnDef(_) => "LazyFnDef"@,
        TopLevel::MacroDef => "MacroDef"@,
        TopLevel::PluginDef => "PluginDef"@,
        TopLevel::MarkerTrait => "MarkerTrait"@,
        TopLevel::ExternFnDef(_) => "ExternFnDef"@,
        TopLevel::ConditionalCompile(_) => "ConditionalCompile"@,
        TopLevel::TestBlock => "TestBlock"@,
        TopLevel::BenchBlock => "BenchBlock"@,
        TopLevel::TraitDef => "TraitDef"@,
        TopLevel::ImplBlock => "ImplBlock"@,
        TopLevel::DtorBlock(_) => "DtorBlock"@,
        TopLevel::Statement(_) => "Statement"@,
    }
}

/// The kind of a declaration.
fn top_level_kind(d: &TopLevel) -> (r: &'static str)
    ensures
        r@ == decl_label(*d),
{
    reveal(decl_label);
    match d {
        TopLevel::Import => "Import",
        TopLevel::Export => "Export",
        TopLevel::FnDef(_) => "FnDef",
        TopLevel::StructDef(_) => "StructDef",
        TopLevel::ClassDef => "ClassDef",
        TopLevel::InterfaceDef => "InterfaceDef",
        TopLevel::EnumDef => "EnumDef",
        TopLevel::TypeAlias => "TypeAlias",
        TopLevel::ConstExpr => "ConstExpr",
        TopLevel::LazyDef => "LazyDef",
        TopLevel::LazyFnDef(_) => "LazyFnDef",
        TopLevel::MacroDef => "MacroDef",
        TopLevel::PluginDef => "PluginDef",
        TopLevel::MarkerTrait => "MarkerTrait",
        TopLevel::ExternFnDef(_) => "ExternFnDef",
        TopLevel::ConditionalCompile(_) => "ConditionalCompile",
        TopLevel::TestBlock => "TestBlock",
        TopLevel::BenchBlock => "BenchBlock",
        TopLevel::TraitDef => "TraitDef",
        TopLevel::ImplBlock => "ImplBlock",
        TopLevel::DtorBlock(_) => "DtorBlock",
        TopLevel::Statement(_) => "Statement",
    }
}

/// The program with a declaration that stands at the top level or under a
/// condition; none where the declaration is of another kind.
pub open spec fn lower_decl(p: Pir, d: TopLevel, sizes: Seq<(Seq<char>, u64)>) -> Option<
    Result<Pir, Seq<char>>,
> {
    match d {
        TopLevel::Statement(s) => match s {
            Stmt::UnsafeBlock(b) => Some(lower_raw_block(p, b.body@)),
            _ => None,
        },
        TopLevel::Import => Some(Ok(p)),
        TopLevel::ConstExpr => Some(Ok(p)),
        TopLevel::FnDef(f) => Some(lower_fn(p, f, sizes)),
        TopLevel::ExternFnDef(e) => Some(lower_declared(p, e)),
        TopLevel::StructDef(s) => Some(lower_aligned(p, s)),
        _ => None,
    }
}

/// What a step that may not apply has come to.
pub open spec fn opt_step(r: Option<Result<(), CompilerError>>, p: PirProgram) -> Option<
    Result<Pir, Seq<char>>,
> {
    match r {
        Some(x) => Some(step(x, p)),
        None => None,
    }
}

/// Lowers a declaration that may stand under a condition.
fn lower_declaration(p: &mut PirProgram, d: &TopLevel, sizes: &FileSizes) -> (r: Option<
    Result<(), CompilerError>,
>)
    ensures
        opt_step(r, *final(p)) == lower_decl(old(p)@, *d, sizes@),
        r is None ==> final(p)@ == old(p)@,
{
    match d {
        TopLevel::Statement(s) => match s {
            Stmt::UnsafeBlock(b) => Some(lower_unsafe_block(p, &b.body)),
            _ => None,
        },
        TopLevel::Import => Some(Ok(())),
        TopLevel::ConstExpr => Some(Ok(())),
        TopLevel::FnDef(f) => Some(lower_function(p, f, sizes)),
        TopLevel::ExternFnDef(e) => Some(lower_extern(p, e)),
        TopLevel::StructDef(s) => Some(lower_struct(p, s)),
        _ => None,
    }
}

/// The program with the declarations under a condition at and behind `i`.
pub open spec fn lower_nested(p: Pir, ds: Seq<TopLevel>, i: int, sizes: Seq<(Seq<char>, u64)>) -> Result<
    Pir,
    Seq<char>,
>
    decreases ds.len() - i,
{
    if i < 0 || i >= ds.len() {
        Ok(p)
    } else {
        match lower_decl(p, ds[i], sizes) {
            None => Err(
                "C* raw conditional compile accepts imports, unsafe blocks, annotated functions, aligned structs, and extern cstar declarations only"@,
            ),
            Some(Err(m)) => Err(m),
            Some(Ok(q)) => lower_nested(q, ds, i + 1, sizes),
        }
    }
}

/// Lowers the declarations under a condition.
fn lower_conditional(p: &mut PirProgram, ds: &Vec<TopLevel>, sizes: &FileSizes) -> (r: Result<
    (),
    CompilerError,
>)
    ensures
        step(r, *final(p)) == lower_nested(old(p)@, ds@, 0, sizes@),
{
    let mut i: usize = 0;
    while i < ds.len()
        invariant
            i <= ds@.len(),
            lower_nested(old(p)@, ds@, 0, sizes@) == lower_nested(p@, ds@, i as int, sizes@),
        decreases ds@.len() - i,
    {
        match lower_declaration(p, &ds[i], sizes) {
            None => {
                return fail(
                    "C* raw conditional compile accepts imports, unsafe blocks, annotated functions, aligned structs, and extern cstar declarations only",
                );
            },
            Some(Err(m)) => {
                return Err(m);
            },
            Some(Ok(_)) => {},
        }
        i = i + 1;
    }
    Ok(())
}

/// The truth value of an `@if` condition that is a literal: of every literal
/// text it matters whether it is empty, unless it has interpolated pieces.
pub open spec fn known_condition(e: Expr) -> Option<bool>
    decreases e,
{
    match e {
        Expr::Bool(b) => Some(b.value),
        Expr::Integer(i) => Some(i.value != 0),
        Expr::Float(f) => Some(float_truthy(f.bits)),
        Expr::Null => Some(false),
        Expr::String_(s) => if is_plain(s.parts@) {
            Some(parts_text(s.parts@).len() > 0)
        } else {
            None
        },
        Expr::MultiLineString(s) => if is_plain(s.parts@) {
            Some(parts_text(s.parts@).len() > 0)
        } else {
            None
        },
        Expr::Unary(u) => if u.operator == UnaryOp::Not || u.operator == UnaryOp::Bang {
            match known_condition(*u.operand) {
                Some(v) => Some(!v),
                None => None,
            }
        } else {
            None
        },
        _ => None,
    }
}

/// Evaluates an `@if` condition that is a literal.
pub fn eval_if_condition(e: &Expr) -> (r: Option<bool>)
    ensures
        r == known_condition(*e),
    decreases e,
{
    match e {
        Expr::Bool(b) => Some(b.value),
        Expr::Integer(i) => Some(i.value != 0),
        Expr::Float(f) => Some(f.bits != 0 && f.bits != 0x8000_0000_0000_0000),
        Expr::Null => Some(false),
        Expr::String_(s) => text_condition(&s.parts),
        Expr::MultiLineString(s) => text_condition(&s.parts),
        Expr::Unary(u) => {
            if u.operator == UnaryOp::Not || u.operator == UnaryOp::Bang {
                match eval_if_condition(&u.operand) {
                    Some(v) => Some(!v),
                    None => None,
                }
            } else {
                None
            }
        },
        _ => None,
    }
}

/// Whether a literal text is not empty.
fn text_condition(parts: &Vec<StringPart>) -> (r: Option<bool>)
    ensures
        r == (if is_plain(parts@) {
            Some(parts_text(parts@).len() > 0)
        } else {
            None::<bool>
        }),
{
    match string_parts_to_plain(parts) {
        Ok(t) => Some(!t.as_str().is_empty()),
        Err(_) => None,
    }
}

/// The declarations that a condition selects; a condition that is not known
/// counts as true.
pub open spec fn selected(c: ConditionalCompile) -> Option<Seq<TopLevel>> {
    let taken = match known_condition(c.condition) {
        Some(v) => v,
        None => true,
    };
    if taken {
        Some(c.then_body@)
    } else {
        match c.else_body {
            Some(b) => Some(b@),
            None => None,
        }
    }
}

/// The program with the declarations at and behind `i`.
pub open spec fn lower_decls(p: Pir, ds: Seq<TopLevel>, i: int, sizes: Seq<(Seq<char>, u64)>) -> Result<
    Pir,
    Seq<char>,
>
    decreases ds.len() - i,
{
    if i < 0 || i >= ds.len() {
        Ok(p)
    } else {
        let r = match ds[i] {
            TopLevel::LazyFnDef(l) => lower_fn(p, l.fn_def, sizes),
            TopLevel::ConditionalCompile(c) => match selected(c) {
                Some(b) => lower_nested(p, b, 0, sizes),
                None => Ok(p),
            },
            _ => match lower_decl(p, ds[i], sizes) {
                Some(r) => r,
                None => Err(
                    "C* raw backend rejects top-level "@ + decl_label(ds[i]) + "; use imports, unsafe blocks, @section/@isr_group/@pipeline/@prefetch/@patch functions, aligned structs, or extern cstar declarations"@,
                ),
            },
        };
        match r {
            Ok(q) => lower_decls(q, ds, i + 1, sizes),
            Err(m) => Err(m),
        }
    }
}

/// Lowers a declaration at the top level.
fn lower_top(p: &mut PirProgram, d: &TopLevel, sizes: &FileSizes) -> (r: Result<(), CompilerError>)
    ensures
        step(r, *final(p)) == (match *d {
            TopLevel::LazyFnDef(l) => lower_fn(old(p)@, l.fn_def, sizes@),
            TopLevel::ConditionalCompile(c) => match selected(c) {
                Some(b) => lower_nested(old(p)@, b, 0, sizes@),
                None => Ok(old(p)@),
            },
            _ => match lower_decl(old(p)@, *d, sizes@) {
                Some(r) => r,
                None => Err(
                    "C* raw backend rejects top-level "@ + decl_label(*d) + "; use imports, unsafe blocks, @section/@isr_group/@pipeline/@prefetch/@patch functions, aligned structs, or extern cstar declarations"@,
                ),
            },
        }),
{
    match d {
        TopLevel::LazyFnDef(l) => lower_function(p, &l.fn_def, sizes),
        TopLevel::ConditionalCompile(c) => {
            let taken: bool = match eval_if_condition(&c.condition) {
                Some(v) => v,
                None => true,
            };
            if taken {
                lower_conditional(p, &c.then_body, sizes)
            } else {
                match &c.else_body {
                    Some(b) => lower_conditional(p, b, sizes),
                    None => Ok(()),
                }
            }
        },
        _ => match lower_declaration(p, d, sizes) {
            Some(r) => r,
            None => {
                let mut m = text("C* raw backend rejects top-level ");
                m.append(top_level_kind(d));
                m.append("; use imports, unsafe blocks, @section/@isr_group/@pipeline/@prefetch/@patch functions, aligned structs, or extern cstar declarations");
                Err(CompilerError::codegen_error(m))
            },
        },
    }
}

// ---------------------------------------------------------------------------
// Interrupt budgets
// ---------------------------------------------------------------------------

/// The record of an interrupt handler holds the cycles of a function of the
/// program, and these lie within the budget where one is given.
pub open spec fn in_budget(p: Pir, e: Isr) -> bool {
    &&& budget_cycles(e.budget_us) > 0 ==> e.wcet_cycles <= budget_cycles(e.budget_us)
    &&& exists|i: int|
        0 <= i < p.functions.len() && (#[trigger] p.functions[i]).name == e.handler
            && e.wcet_cycles == clamped(
            total_cycles(p.functions[i].body, p.functions[i].body.len()),
        )
}

/// All recorded interrupt handlers lie within their budgets.
pub open spec fn all_in_budget(p: Pir) -> bool {
    forall|k: int| 0 <= k < p.isr_entries.len() ==> in_budget(p, #[trigger] p.isr_entries[k])
}

/// A program with more functions and the same handlers.
proof fn lemma_more_functions(p: Pir, q: Pir)
    requires
        all_in_budget(p),
        p.isr_entries == q.isr_entries,
        p.functions.len() <= q.functions.len(),
        forall|i: int| 0 <= i < p.functions.len() ==> (#[trigger] p.functions[i]) == q.functions[i],
    ensures
        all_in_budget(q),
{
    assert forall|k: int| 0 <= k < q.isr_entries.len() implies in_budget(
        q,
        #[trigger] q.isr_entries[k],
    ) by {
        let e = p.isr_entries[k];
        assert(in_budget(p, e));
        let i = choose|i: int|
            0 <= i < p.functions.len() && (#[trigger] p.functions[i]).name == e.handler
                && e.wcet_cycles == clamped(
                total_cycles(p.functions[i].body, p.functions[i].body.len()),
            );
        assert(q.functions[i] == p.functions[i]);
    }
}

/// Vector table entries leave functions and handlers alone.
proof fn lemma_irq_entries(p: Pir, hs: Seq<Seq<char>>, k: nat)
    ensures
        irq_entries(p, hs, k).isr_entries == p.isr_entries,
        irq_entries(p, hs, k).functions == p.functions,
    decreases k,
{
    if k > 0 && k <= hs.len() {
        lemma_irq_entries(p, hs, (k - 1) as nat);
    }
}

/// Vector table entries leave functions and handlers alone.
proof fn lemma_vector_args(p: Pir, args: Seq<AnnotationArg>, k: nat)
    ensures
        vector_args(p, args, k).isr_entries == p.isr_entries,
        vector_args(p, args, k).functions == p.functions,
    decreases k,
{
    if k > 0 && k <= args.len() {
        lemma_vector_args(p, args, (k - 1) as nat);
        let prev = vector_args(p, args, (k - 1) as nat);
        let hs = irq_handlers(value_text(args[k - 1]));
        lemma_irq_entries(prev, hs, hs.len());
    }
}

/// A lowered function lies within its budget.
proof fn lemma_with_function(
    p: Pir,
    f: FnDef,
    section: Option<Seq<char>>,
    isr: Option<(i64, i64)>,
    body: Seq<Node>,
)
    requires
        all_in_budget(p),
    ensures
        with_function(p, f, section, isr, body) matches Ok(q) ==> all_in_budget(q),
{
    reveal(with_function);
    match with_function(p, f, section, isr, body) {
        Ok(q) => {
            let last = q.functions.len() - 1;
            assert(q.functions[last].name == f.name.name@ && q.functions[last].body == body);
            assert forall|k: int| 0 <= k < q.isr_entries.len() implies in_budget(
                q,
                #[trigger] q.isr_entries[k],
            ) by {
                if k < p.isr_entries.len() {
                    let e = p.isr_entries[k];
                    assert(q.isr_entries[k] == e);
                    assert(in_budget(p, e));
                    let i = choose|i: int|
                        0 <= i < p.functions.len() && (#[trigger] p.functions[i]).name == e.handler
                            && e.wcet_cycles == clamped(
                            total_cycles(p.functions[i].body, p.functions[i].body.len()),
                        );
                    assert(q.functions[i] == p.functions[i]);
                }
            }
        },
        Err(_) => {},
    }
}

/// A lowered function lies within its budget.
proof fn lemma_lower_fn(p: Pir, f: FnDef, sizes: Seq<(Seq<char>, u64)>)
    requires
        all_in_budget(p),
    ensures
        lower_fn(p, f, sizes) matches Ok(q) ==> all_in_budget(q),
{
    reveal(lower_fn);
    let anns = f.annotations@;
    let n = f.name.name@;
    let patch = patch_annotation(anns);
    match (
        string_annotation(anns, "section"@),
        isr_annotation(anns),
        string_annotation(anns, "embed"@),
        string_annotation(anns, "link"@),
        int_annotation(anns, "breakpoint"@),
    ) {
        (Ok(section), Ok(isr), Ok(embed), Ok(link), Ok(at)) => {
            let g = with_guards(p, anns, n, at);
            lemma_vector_args(
                g,
                args_of(anns, "vector_table"@),
                args_of(anns, "vector_table"@).len(),
            );
            let p1 = with_target(g, anns);
            let p2 = with_patch(p1, n, patch);
            lemma_more_functions(p, p2);
            let b1 = file_nodes(schedule_nodes(f), n, patch, embed, link, sizes);
            let b2 = body_nodes(b1, n, f.body@, f.body@.len());
            lemma_with_function(p2, f, section, isr, b2);
        },
        _ => {},
    }
}

/// A lowered declaration keeps handlers within their budgets.
proof fn lemma_lower_decl(p: Pir, d: TopLevel, sizes: Seq<(Seq<char>, u64)>)
    requires
        all_in_budget(p),
    ensures
        lower_decl(p, d, sizes) matches Some(Ok(q)) ==> all_in_budget(q),
{
    match d {
        TopLevel::FnDef(f) => {
            lemma_lower_fn(p, f, sizes);
        },
        TopLevel::ExternFnDef(e) => {
            reveal(lower_declared);
            match lower_declared(p, e) {
                Ok(q) => {
                    lemma_more_functions(p, q);
                },
                Err(_) => {},
            }
        },
        TopLevel::StructDef(s) => {
            reveal(lower_aligned);
            match lower_aligned(p, s) {
                Ok(q) => {
                    lemma_more_functions(p, q);
                },
                Err(_) => {},
            }
        },
        TopLevel::Statement(s) => match s {
            Stmt::UnsafeBlock(b) => {
                match lower_raw_block(p, b.body@) {
                    Ok(q) => {
                        lemma_more_functions(p, q);
                    },
                    Err(_) => {},
                }
            },
            _ => {},
        },
        _ => {},
    }
}

/// Lowered declarations keep handlers within their budgets.
proof fn lemma_lower_nested(p: Pir, ds: Seq<TopLevel>, i: int, sizes: Seq<(Seq<char>, u64)>)
    requires
        all_in_budget(p),
    ensures
        lower_nested(p, ds, i, sizes) matches Ok(q) ==> all_in_budget(q),
    decreases ds.len() - i,
{
    if 0 <= i < ds.len() {
        lemma_lower_decl(p, ds[i], sizes);
        match lower_decl(p, ds[i], sizes) {
            Some(Ok(q)) => {
                lemma_lower_nested(q, ds, i + 1, sizes);
            },
            _ => {},
        }
    }
}

/// A program is lowered only where every interrupt handler, by its worst-case
/// estimate, keeps within its budget.
pub proof fn law_handlers_keep_within_their_budgets(
    p: Pir,
    ds: Seq<TopLevel>,
    i: int,
    sizes: Seq<(Seq<char>, u64)>,
)
    requires
        all_in_budget(p),
    ensures
        lower_decls(p, ds, i, sizes) matches Ok(q) ==> all_in_budget(q),
    decreases ds.len() - i,
{
    if 0 <= i < ds.len() {
        let r = match ds[i] {
            TopLevel::LazyFnDef(l) => {
                lemma_lower_fn(p, l.fn_def, sizes);
                lower_fn(p, l.fn_def, sizes)
            },
            TopLevel::ConditionalCompile(c) => match selected(c) {
                Some(b) => {
                    lemma_lower_nested(p, b, 0, sizes);
                    lower_nested(p, b, 0, sizes)
                },
                None => Ok(p),
            },
            _ => {
                lemma_lower_decl(p, ds[i], sizes);
                match lower_decl(p, ds[i], sizes) {
                    Some(r) => r,
                    None => Err(Seq::empty()),
                }
            },
        };
        match r {
            Ok(q) => {
                law_handlers_keep_within_their_budgets(q, ds, i + 1, sizes);
            },
            Err(_) => {},
        }
    }
}

// ---------------------------------------------------------------------------
// Linker scripts
// ---------------------------------------------------------------------------

/// The section of a function is one that the linker script places.
pub open spec fn placed_section(f: Function) -> bool {
    f.section matches Some(s) && begins(s, "."@)
}

/// A program with a function in a placed section, a patch or a package is
/// marked as one that needs a linker script.
pub open spec fn linked_where_due(p: Pir) -> bool {
    &&& forall|i: int|
        0 <= i < p.functions.len() && placed_section(#[trigger] p.functions[i])
            ==> p.needs_linker_script
    &&& p.patch_plans.len() > 0 ==> p.needs_linker_script
    &&& p.packages.len() > 0 ==> p.needs_linker_script
}

/// A mark once set stays, and the marks that are due are kept.
spec fn keeps_marks(p: Pir, q: Pir) -> bool {
    &&& p.needs_linker_script ==> q.needs_linker_script
    &&& linked_where_due(p) ==> linked_where_due(q)
}

/// Vector table entries bring no function, patch or package.
proof fn lemma_irq_marks(p: Pir, hs: Seq<Seq<char>>, k: nat)
    ensures
        irq_entries(p, hs, k).functions == p.functions,
        irq_entries(p, hs, k).patch_plans == p.patch_plans,
        irq_entries(p, hs, k).packages == p.packages,
        p.needs_linker_script ==> irq_entries(p, hs, k).needs_linker_script,
    decreases k,
{
    if k > 0 && k <= hs.len() {
        lemma_irq_marks(p, hs, (k - 1) as nat);
    }
}

/// Vector table entries bring no function, patch or package.
proof fn lemma_vector_marks(p: Pir, args: Seq<AnnotationArg>, k: nat)
    ensures
        vector_args(p, args, k).functions == p.functions,
        vector_args(p, args, k).patch_plans == p.patch_plans,
        vector_args(p, args, k).packages == p.packages,
        p.needs_linker_script ==> vector_args(p, args, k).needs_linker_script,
    decreases k,
{
    if k > 0 && k <= args.len() {
        lemma_vector_marks(p, args, (k - 1) as nat);
        let hs = irq_handlers(value_text(args[k - 1]));
        lemma_irq_marks(vector_args(p, args, (k - 1) as nat), hs, hs.len());
    }
}

/// A lowered function is marked for its section.
proof fn lemma_function_marks(
    p: Pir,
    f: FnDef,
    section: Option<Seq<char>>,
    isr: Option<(i64, i64)>,
    body: Seq<Node>,
)
    ensures
        with_function(p, f, section, isr, body) matches Ok(q) ==> keeps_marks(p, q) && (section
            is None ==> q.needs_linker_script),
{
    reveal(with_function);
    reveal_strlit(".text");
    reveal_strlit(".");
    assert(begins(".text"@, "."@)) by {
        assert(".text"@.take(1) =~= "."@);
    }
    match with_function(p, f, section, isr, body) {
        Ok(q) => {
            if linked_where_due(p) {
                assert forall|i: int|
                    0 <= i < q.functions.len() && placed_section(
                        #[trigger] q.functions[i],
                    ) implies q.needs_linker_script by {
                    if i < p.functions.len() {
                        assert(q.functions[i] == p.functions[i]);
                    }
                }
            }
        },
        Err(_) => {},
    }
}

/// The function has no section of its own.
pub open spec fn sectionless(f: FnDef) -> bool {
    string_annotation(f.annotations@, "section"@) == Ok::<Option<Seq<char>>, Seq<char>>(None)
}

/// The declaration is a function definition without a section of its own.
pub open spec fn defines_text(d: TopLevel) -> bool {
    d matches TopLevel::FnDef(f) && sectionless(f)
}

/// A lowered function is marked for its section and its patch.
proof fn lemma_lowered_fn_marks(p: Pir, f: FnDef, sizes: Seq<(Seq<char>, u64)>)
    ensures
        lower_fn(p, f, sizes) matches Ok(q) ==> keeps_marks(p, q) && (sectionless(f)
            ==> q.needs_linker_script),
{
    reveal(lower_fn);
    let anns = f.annotations@;
    let n = f.name.name@;
    let patch = patch_annotation(anns);
    match (
        string_annotation(anns, "section"@),
        isr_annotation(anns),
        string_annotation(anns, "embed"@),
        string_annotation(anns, "link"@),
        int_annotation(anns, "breakpoint"@),
    ) {
        (Ok(section), Ok(isr), Ok(embed), Ok(link), Ok(at)) => {
            let g = with_guards(p, anns, n, at);
            let args = args_of(anns, "vector_table"@);
            lemma_vector_marks(g, args, args.len());
            let p1 = with_target(g, anns);
            let p2 = with_patch(p1, n, patch);
            assert(p2.functions == p.functions && p2.packages == p.packages);
            let b1 = file_nodes(schedule_nodes(f), n, patch, embed, link, sizes);
            let b2 = body_nodes(b1, n, f.body@, f.body@.len());
            lemma_function_marks(p2, f, section, isr, b2);
        },
        _ => {},
    }
}

/// A lowered declaration keeps the marks.
proof fn lemma_decl_marks(p: Pir, d: TopLevel, sizes: Seq<(Seq<char>, u64)>)
    ensures
        lower_decl(p, d, sizes) matches Some(Ok(q)) ==> keeps_marks(p, q) && (defines_text(d)
            ==> q.needs_linker_script),
{
    match d {
        TopLevel::FnDef(f) => {
            lemma_lowered_fn_marks(p, f, sizes);
        },
        TopLevel::ExternFnDef(e) => {
            reveal(lower_declared);
        },
        TopLevel::StructDef(s) => {
            reveal(lower_aligned);
        },
        _ => {},
    }
}

/// Lowered declarations keep the marks.
proof fn lemma_nested_marks(p: Pir, ds: Seq<TopLevel>, i: int, sizes: Seq<(Seq<char>, u64)>)
    requires
        i >= 0,
    ensures
        lower_nested(p, ds, i, sizes) matches Ok(q) ==> keeps_marks(p, q) && forall|k: int|
            i <= k < ds.len() && defines_text(#[trigger] ds[k]) ==> q.needs_linker_script,
    decreases ds.len() - i,
{
    if i < ds.len() {
        lemma_decl_marks(p, ds[i], sizes);
        match lower_decl(p, ds[i], sizes) {
            Some(Ok(q)) => {
                lemma_nested_marks(q, ds, i + 1, sizes);
                match lower_nested(q, ds, i + 1, sizes) {
                    Ok(e) => {
                        assert forall|k: int|
                            i <= k < ds.len() && defines_text(
                                #[trigger] ds[k],
                            ) implies e.needs_linker_script by {}
                    },
                    Err(_) => {},
                }
            },
            _ => {},
        }
    }
}

/// The declaration is or selects a function without a section of its own.
pub open spec fn in_text(d: TopLevel) -> bool {
    match d {
        TopLevel::LazyFnDef(l) => sectionless(l.fn_def),
        TopLevel::ConditionalCompile(c) => selected(c) matches Some(b) && exists|k: int|
            0 <= k < b.len() && defines_text(#[trigger] b[k]),
        _ => defines_text(d),
    }
}

/// A lowered program is marked as one that needs a linker script where it has a
/// function in a placed section, a patch or a package, and where one of its
/// declarations is, or selects by its condition, a function without a section of
/// its own.
pub proof fn law_linker_scripts_are_marked(
    p: Pir,
    ds: Seq<TopLevel>,
    i: int,
    sizes: Seq<(Seq<char>, u64)>,
)
    requires
        i >= 0,
    ensures
        lower_decls(p, ds, i, sizes) matches Ok(q) ==> {
            &&& p.needs_linker_script ==> q.needs_linker_script
            &&& linked_where_due(p) ==> linked_where_due(q)
            &&& forall|k: int|
                i <= k < ds.len() && in_text(#[trigger] ds[k]) ==> q.needs_linker_script
        },
    decreases ds.len() - i,
{
    if i < ds.len() {
        let r = match ds[i] {
            TopLevel::LazyFnDef(l) => {
                lemma_lowered_fn_marks(p, l.fn_def, sizes);
                lower_fn(p, l.fn_def, sizes)
            },
            TopLevel::ConditionalCompile(c) => match selected(c) {
                Some(b) => {
                    lemma_nested_marks(p, b, 0, sizes);
                    lower_nested(p, b, 0, sizes)
                },
                None => Ok(p),
            },
            _ => {
                lemma_decl_marks(p, ds[i], sizes);
                match lower_decl(p, ds[i], sizes) {
                    Some(r) => r,
                    None => Err(Seq::empty()),
                }
            },
        };
        match r {
            Ok(q) => {
                assert(in_text(ds[i]) ==> q.needs_linker_script);
                law_linker_scripts_are_marked(q, ds, i + 1, sizes);
                match lower_decls(q, ds, i + 1, sizes) {
                    Ok(e) => {
                        assert forall|k: int|
                            i <= k < ds.len() && in_text(
                                #[trigger] ds[k],
                            ) implies e.needs_linker_script by {}
                    },
                    Err(_) => {},
                }
            },
            Err(_) => {},
        }
    }
}

/// What a function that gives a program or fails has come to.
pub open spec fn program_outcome(r: Result<PirProgram, CompilerError>) -> Result<Pir, Seq<char>> {
    match r {
        Ok(p) => Ok(p@),
        Err(e) => Err(e.text()),
    }
}

/// Lowers a program.
pub fn lower_program(program: &Program, sizes: &FileSizes) -> (r: Result<PirProgram, CompilerError>)
    ensures
        program_outcome(r) == lower_decls(no_program(), program.declarations@, 0, sizes@),
{
    let mut p = PirProgram::default();
    let ds = &program.declarations;
    let mut i: usize = 0;
    while i < ds.len()
        invariant
            ds@ == program.declarations@,
            i <= ds@.len(),
            lower_decls(no_program(), ds@, 0, sizes@) == lower_decls(p@, ds@, i as int, sizes@),
        decreases ds@.len() - i,
    {
        match lower_top(&mut p, &ds[i], sizes) {
            Ok(_) => {},
            Err(m) => {
                return Err(m);
            },
        }
        i = i + 1;
    }
    Ok(p)
}

// ---------------------------------------------------------------------------
// Embedded files
// ---------------------------------------------------------------------------

/// The path of the file that a function embeds.
pub open spec fn embedded_by(f: FnDef) -> Option<Seq<char>> {
    match string_annotation(f.annotations@, "embed"@) {
        Ok(Some(p)) => Some(p),
        _ => None,
    }
}

/// The paths, and then that of the file that a function embeds.
pub open spec fn with_embedded(out: Seq<Seq<char>>, f: FnDef) -> Seq<Seq<char>> {
    match embedded_by(f) {
        Some(p) => out.push(p),
        None => out,
    }
}

/// The paths, and then those that the first `k` declarations under a condition
/// embed.
pub open spec fn nested_embedded(out: Seq<Seq<char>>, ds: Seq<TopLevel>, k: nat) -> Seq<Seq<char>>
    decreases k,
{
    if k == 0 || k > ds.len() {
        out
    } else {
        let prev = nested_embedded(out, ds, (k - 1) as nat);
        match ds[k - 1] {
            TopLevel::FnDef(f) => with_embedded(prev, f),
            _ => prev,
        }
    }
}

/// The paths of the files that the first `k` declarations embed.
pub open spec fn embedded(ds: Seq<TopLevel>, k: nat) -> Seq<Seq<char>>
    decreases k,
{
    if k == 0 || k > ds.len() {
        Seq::empty()
    } else {
        let prev = embedded(ds, (k - 1) as nat);
        match ds[k - 1] {
            TopLevel::FnDef(f) => with_embedded(prev, f),
            TopLevel::LazyFnDef(l) => with_embedded(prev, l.fn_def),
            TopLevel::ConditionalCompile(c) => match selected(c) {
                Some(b) => nested_embedded(prev, b, b.len()),
                None => prev,
            },
            _ => prev,
        }
    }
}

/// Adds the path of the file that a function embeds.
fn add_embedded(out: &mut TextList, f: &FnDef)
    ensures
        final(out)@ == with_embedded(old(out)@, *f),
{
    match annotation_string(&f.annotations, "embed") {
        Ok(Some(p)) => {
            out.push(p);
        },
        _ => {},
    }
}

/// Adds the paths of the files that declarations under a condition embed.
fn add_nested_embedded(out: &mut TextList, ds: &Vec<TopLevel>)
    ensures
        final(out)@ == nested_embedded(old(out)@, ds@, ds@.len()),
{
    let mut k: usize = 0;
    while k < ds.len()
        invariant
            k <= ds@.len(),
            out@ == nested_embedded(old(out)@, ds@, k as nat),
        decreases ds@.len() - k,
    {
        match &ds[k] {
            TopLevel::FnDef(f) => {
                add_embedded(out, f);
            },
            _ => {},
        }
        k = k + 1;
    }
}

/// The paths of the files that a program embeds.
pub fn embedded_files(program: &Program) -> (r: Vec<String>)
    ensures
        texts(r@) == embedded(program.declarations@, program.declarations@.len()),
{
    let ds = &program.declarations;
    let mut out = TextList::new();
    let mut k: usize = 0;
    while k < ds.len()
        invariant
            ds@ == program.declarations@,
            k <= ds@.len(),
            out@ == embedded(ds@, k as nat),
        decreases ds@.len() - k,
    {
        match &ds[k] {
            TopLevel::FnDef(f) => {
                add_embedded(&mut out, f);
            },
            TopLevel::LazyFnDef(l) => {
                add_embedded(&mut out, &l.fn_def);
            },
            TopLevel::ConditionalCompile(c) => {
                let taken: bool = match eval_if_condition(&c.condition) {
                    Some(v) => v,
                    None => true,
                };
                if taken {
                    add_nested_embedded(&mut out, &c.then_body);
                } else {
                    match &c.else_body {
                        Some(b) => {
                            add_nested_embedded(&mut out, b);
                        },
                        None => {},
                    }
                }
            },
            _ => {},
        }
        k = k + 1;
    }
    out.into_vec()
}

/// Two size tables agree on the paths of a list.
pub open spec fn agree(s: Seq<(Seq<char>, u64)>, t: Seq<(Seq<char>, u64)>, paths: Seq<Seq<char>>) -> bool {
    forall|p: Seq<char>|
        paths.contains(p) ==> #[trigger] file_size(s, p, 0) == file_size(t, p, 0)
}

/// A function looks up only the file that it embeds.
proof fn lemma_fn_sizes(
    p: Pir,
    f: FnDef,
    s: Seq<(Seq<char>, u64)>,
    t: Seq<(Seq<char>, u64)>,
    paths: Seq<Seq<char>>,
)
    requires
        agree(s, t, with_embedded(paths, f)),
    ensures
        lower_fn(p, f, s) == lower_fn(p, f, t),
        agree(s, t, paths),
{
    reveal(lower_fn);
    let all = with_embedded(paths, f);
    match embedded_by(f) {
        Some(x) => {
            assert(all[paths.len() as int] == x);
            assert(all.contains(x));
            assert(file_size(s, x, 0) == file_size(t, x, 0));
        },
        None => {},
    }
    assert forall|x: Seq<char>| paths.contains(x) implies #[trigger] file_size(s, x, 0)
        == file_size(t, x, 0) by {
        let i = paths.index_of(x);
        assert(all[i] == x);
    }
}

/// Declarations under a condition look up only the files that they embed.
proof fn lemma_nested_sizes(
    p: Pir,
    ds: Seq<TopLevel>,
    i: nat,
    s: Seq<(Seq<char>, u64)>,
    t: Seq<(Seq<char>, u64)>,
    paths: Seq<Seq<char>>,
)
    requires
        i <= ds.len(),
        agree(s, t, nested_embedded(paths, ds, ds.len())),
    ensures
        lower_nested(p, ds, i as int, s) == lower_nested(p, ds, i as int, t),
    decreases ds.len() - i,
{
    if i < ds.len() {
        lemma_nested_agree(ds, i + 1, s, t, paths);
        match ds[i as int] {
            TopLevel::FnDef(f) => {
                lemma_fn_sizes(p, f, s, t, nested_embedded(paths, ds, i));
            },
            _ => {},
        }
        match lower_decl(p, ds[i as int], s) {
            Some(Ok(q)) => {
                lemma_nested_sizes(q, ds, i + 1, s, t, paths);
            },
            _ => {},
        }
    }
}

/// Tables that agree on all embedded files agree on the first ones.
proof fn lemma_nested_agree(
    ds: Seq<TopLevel>,
    k: nat,
    s: Seq<(Seq<char>, u64)>,
    t: Seq<(Seq<char>, u64)>,
    paths: Seq<Seq<char>>,
)
    requires
        k <= ds.len(),
        agree(s, t, nested_embedded(paths, ds, ds.len())),
    ensures
        agree(s, t, nested_embedded(paths, ds, k)),
        agree(s, t, paths),
    decreases ds.len() - k, 1nat,
{
    if k < ds.len() {
        lemma_nested_agree(ds, k + 1, s, t, paths);
        match ds[k as int] {
            TopLevel::FnDef(f) => {
                lemma_fn_sizes(no_program(), f, s, t, nested_embedded(paths, ds, k));
            },
            _ => {},
        }
    } else {
        lemma_nested_start(ds, k, s, t, paths);
    }
}

/// Tables that agree on embedded files agree on the paths in front of them.
proof fn lemma_nested_start(
    ds: Seq<TopLevel>,
    k: nat,
    s: Seq<(Seq<char>, u64)>,
    t: Seq<(Seq<char>, u64)>,
    paths: Seq<Seq<char>>,
)
    requires
        k <= ds.len(),
        agree(s, t, nested_embedded(paths, ds, k)),
    ensures
        agree(s, t, paths),
    decreases k,
{
    if k > 0 {
        match ds[k - 1] {
            TopLevel::FnDef(f) => {
                lemma_fn_sizes(no_program(), f, s, t, nested_embedded(paths, ds, (k - 1) as nat));
            },
            _ => {},
        }
        lemma_nested_start(ds, (k - 1) as nat, s, t, paths);
    }
}

/// Tables that agree on all embedded files agree on the first ones.
proof fn lemma_agree(
    ds: Seq<TopLevel>,
    k: nat,
    s: Seq<(Seq<char>, u64)>,
    t: Seq<(Seq<char>, u64)>,
)
    requires
        k <= ds.len(),
        agree(s, t, embedded(ds, ds.len())),
    ensures
        agree(s, t, embedded(ds, k)),
    decreases ds.len() - k,
{
    if k < ds.len() {
        lemma_agree(ds, k + 1, s, t);
        match ds[k as int] {
            TopLevel::FnDef(f) => {
                lemma_fn_sizes(no_program(), f, s, t, embedded(ds, k));
            },
            TopLevel::LazyFnDef(l) => {
                lemma_fn_sizes(no_program(), l.fn_def, s, t, embedded(ds, k));
            },
            TopLevel::ConditionalCompile(c) => match selected(c) {
                Some(b) => {
                    lemma_nested_start(b, b.len(), s, t, embedded(ds, k));
                },
                None => {},
            },
            _ => {},
        }
    }
}

/// Lowering looks up only the files that the program embeds: whatever is noted of
/// other files changes nothing.
pub proof fn law_only_embedded_files_matter(
    p: Pir,
    ds: Seq<TopLevel>,
    i: nat,
    s: Seq<(Seq<char>, u64)>,
    t: Seq<(Seq<char>, u64)>,
)
    requires
        i <= ds.len(),
        agree(s, t, embedded(ds, ds.len())),
    ensures
        lower_decls(p, ds, i as int, s) == lower_decls(p, ds, i as int, t),
    decreases ds.len() - i,
{
    if i < ds.len() {
        lemma_agree(ds, i + 1, s, t);
        let prev = embedded(ds, i);
        let r = match ds[i as int] {
            TopLevel::LazyFnDef(l) => {
                lemma_fn_sizes(p, l.fn_def, s, t, prev);
                lower_fn(p, l.fn_def, s)
            },
            TopLevel::ConditionalCompile(c) => match selected(c) {
                Some(b) => {
                    lemma_nested_sizes(p, b, 0, s, t, prev);
                    lower_nested(p, b, 0, s)
                },
                None => Ok(p),
            },
            TopLevel::FnDef(f) => {
                lemma_fn_sizes(p, f, s, t, prev);
                lower_fn(p, f, s)
            },
            _ => match lower_decl(p, ds[i as int], s) {
                Some(r) => r,
                None => Err(Seq::empty()),
            },
        };
        match r {
            Ok(q) => {
                law_only_embedded_files_matter(q, ds, i + 1, s, t);
            },
            Err(_) => {},
        }
    }
}

} // verus!
