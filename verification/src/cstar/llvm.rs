//! LLVM text for PIR programs.

use vstd::prelude::*;
use crate::cstar::annotations::text_outcome;
use crate::cstar::hash::{hash_of, stable_hash};
use crate::cstar::pir::{
    Declared, externs_of, Function, functions_of, Isr, IsrEntry, isrs_of, llvm_name, Node, node_of,
    nodes_of, Operand, operands, opt_view, Package, PackageEntry, packages_of, params_of, Patch,
    patches_of, PatchPlan, Pir, PirExtern, PirFunction, PirNode, PirOperand, PirProgram, PirType,
    ptr_to,
};
use crate::cstar::raw::common::{bump, bumped};
use crate::error::{CompilerError, fail};
use crate::text::{
    begins, cat, chars, dec, escape_llvm, int_dec, int_text, joined, lines, lines_of, llvm_escaped,
    numbered, push_dec, push_int, same, sanitize_symbol, sanitized, slice_text, starts_with, text,
    TextList, TextMap, texts,
};

verus! {

/// The state of emission: the text so far, the LLVM values of variables, the
/// stack slots of variables, and the number of the last temporary.
pub struct Ir {
    pub out: Seq<char>,
    pub names: Map<Seq<char>, Seq<char>>,
    pub slots: Map<Seq<char>, Seq<char>>,
    pub tmp: usize,
}

impl Ir {
    /// The same state with another text.
    pub open spec fn with(self, out: Seq<char>) -> Ir {
        Ir { out, ..self }
    }

    /// The same state with one more temporary.
    pub open spec fn fresh(self) -> Ir {
        Ir { tmp: bump(self.tmp), ..self }
    }

    /// The same state with a value for a variable.
    pub open spec fn bind(self, name: Seq<char>, value: Seq<char>) -> Ir {
        Ir { names: self.names.insert(name, value), ..self }
    }
}

/// The name of temporary `n`.
#[verifier::opaque]
pub open spec fn tmp_name(n: usize) -> Seq<char> {
    "%cstar"@ + dec(n as nat)
}

// ---------------------------------------------------------------------------
// Operands
// ---------------------------------------------------------------------------

/// The reason for a variable without a value.
pub open spec fn no_value(v: Seq<char>) -> Seq<char> {
    "C* variable '"@ + v + "' has no LLVM value"@
}

/// The state behind an operand of type `ty`, and its LLVM value.
#[verifier::opaque]
pub open spec fn typed_operand(ir: Ir, op: Operand, ty: PirType) -> Result<
    (Ir, Seq<char>),
    Seq<char>,
> {
    match op {
        Operand::Int(i) => Ok((ir, int_dec(i as int))),
        Operand::Bool(b) => Ok(
            (
                ir,
                if b {
                    "1"@
                } else {
                    "0"@
                },
            ),
        ),
        Operand::NullPtr => Ok((ir, "null"@)),
        Operand::Var(v) => if ir.slots.contains_key(v) {
            if ty is Ptr {
                Ok((ir, ir.slots[v]))
            } else {
                let t = tmp_name(bump(ir.tmp));
                Ok(
                    (
                        ir.fresh().with(
                            ir.out + "  "@ + t + " = load "@ + llvm_name(ty) + ", "@ + llvm_name(ptr_to(ty)) + " "@ + ir.slots[v] + ", align 8\n"@,
                        ),
                        t,
                    ),
                )
            }
        } else if ir.names.contains_key(v) {
            if ty is Ptr && llvm_name(ty) != "i8*"@ {
                let t = tmp_name(bump(ir.tmp));
                Ok(
                    (
                        ir.fresh().with(
                            ir.out + "  "@ + t + " = bitcast i8* "@ + ir.names[v] + " to "@ + llvm_name(ty) + "\n"@,
                        ),
                        t,
                    ),
                )
            } else {
                Ok((ir, ir.names[v]))
            }
        } else {
            Err(no_value(v))
        },
    }
}

/// The LLVM value of an operand as a pointer to bytes.
#[verifier::opaque]
pub open spec fn erased_operand(ir: Ir, op: Operand) -> Result<Seq<char>, Seq<char>> {
    match op {
        Operand::NullPtr => Ok("null"@),
        Operand::Var(v) => if ir.names.contains_key(v) {
            Ok(ir.names[v])
        } else {
            Err("C* ptr variable '"@ + v + "' has no LLVM value"@)
        },
        _ => Err("C* expected pointer operand"@),
    }
}

/// The state with a stack slot for a variable, and the slot.
#[verifier::opaque]
pub open spec fn stack_slot(ir: Ir, name: Seq<char>, ty: PirType) -> (Ir, Seq<char>) {
    if ir.slots.contains_key(name) {
        (ir, ir.slots[name])
    } else {
        let t = tmp_name(bump(ir.tmp));
        (
            Ir {
                slots: ir.slots.insert(name, t),
                ..ir.fresh().with(ir.out + "  "@ + t + " = alloca "@ + llvm_name(ty) + ", align 8\n"@)
            },
            t,
        )
    }
}

/// An argument of a call.
pub open spec fn arg_value(names: Map<Seq<char>, Seq<char>>, op: Operand) -> Result<
    Seq<char>,
    Seq<char>,
> {
    match op {
        Operand::Int(i) => Ok("i64 "@ + int_dec(i as int)),
        Operand::Bool(b) => Ok(
            if b {
                "i1 1"@
            } else {
                "i1 0"@
            },
        ),
        Operand::NullPtr => Ok("i8* null"@),
        Operand::Var(v) => if names.contains_key(v) {
            Ok("i8* "@ + names[v])
        } else {
            Err(no_value(v))
        },
    }
}

/// The arguments `acc` and those at and behind `i`.
pub open spec fn arg_values(
    acc: Seq<Seq<char>>,
    names: Map<Seq<char>, Seq<char>>,
    ops: Seq<Operand>,
    i: int,
) -> Result<Seq<Seq<char>>, Seq<char>>
    decreases ops.len() - i,
{
    if i < 0 || i >= ops.len() {
        Ok(acc)
    } else {
        match arg_value(names, ops[i]) {
            Ok(s) => arg_values(acc.push(s), names, ops, i + 1),
            Err(m) => Err(m),
        }
    }
}

/// The argument list of a call.
#[verifier::opaque]
pub open spec fn args_text(names: Map<Seq<char>, Seq<char>>, ops: Seq<Operand>) -> Result<
    Seq<char>,
    Seq<char>,
> {
    match arg_values(Seq::empty(), names, ops, 0) {
        Ok(v) => Ok(joined(v, ", "@)),
        Err(m) => Err(m),
    }
}

// ---------------------------------------------------------------------------
// Nodes
// ---------------------------------------------------------------------------

/// The state behind an allocation.
#[verifier::opaque]
pub open spec fn emit_alloc(ir: Ir, dst: Seq<char>, bytes: Operand, ty: PirType) -> Result<
    Ir,
    Seq<char>,
> {
    match bytes {
        Operand::Int(n) => {
            let raw = tmp_name(bump(ir.tmp));
            let i1 = ir.fresh().with(
                ir.out + "  "@ + raw + " = call i8* @malloc(i64 "@ + int_dec(n as int) + ")\n"@,
            );
            if llvm_name(ty) == "i8*"@ {
                Ok(i1.bind(dst, raw))
            } else {
                let cast = tmp_name(bump(i1.tmp));
                Ok(
                    i1.fresh().with(
                        i1.out + "  "@ + cast + " = bitcast i8* "@ + raw + " to "@ + llvm_name(ty) + "\n"@,
                    ).bind(dst, cast),
                )
            }
        },
        _ => Err("C* expected i64 integer operand"@),
    }
}

/// The state behind a call.
#[verifier::opaque]
pub open spec fn emit_call(
    ir: Ir,
    dst: Option<Seq<char>>,
    func: Seq<char>,
    args: Seq<Operand>,
    ret_ty: PirType,
) -> Result<Ir, Seq<char>> {
    if func == "free"@ || func == "consume"@ {
        if args.len() == 0 {
            Err("C* free requires one argument"@)
        } else {
            match erased_operand(ir, args[0]) {
                Err(m) => Err(m),
                Ok(p) => Ok(ir.with(ir.out + "  call void @free(i8* "@ + p + ")\n"@)),
            }
        }
    } else {
        match args_text(ir.names, args) {
            Err(m) => Err(m),
            Ok(list) => if ret_ty is Void {
                Ok(ir.with(ir.out + "  call void @"@ + sanitized(func) + "("@ + list + ")\n"@))
            } else {
                let res = tmp_name(bump(ir.tmp));
                let i1 = ir.fresh().with(
                    ir.out + "  "@ + res + " = call "@ + llvm_name(ret_ty) + " @"@ + sanitized(func) + "("@ + list + ")\n"@,
                );
                match dst {
                    Some(d) => Ok(i1.bind(d, res)),
                    None => Ok(i1),
                }
            },
        }
    }
}

/// The constraints of an inline assembly block: the outputs, and a register
/// for each of `n` inputs.
pub open spec fn constraints(outputs: Seq<Seq<char>>, n: nat) -> Seq<Seq<char>> {
    outputs + Seq::new(n, |i: int| "r"@)
}

/// The state behind an inline assembly block.
#[verifier::opaque]
pub open spec fn emit_asm_block(
    ir: Ir,
    template: Seq<char>,
    inputs: Seq<Operand>,
    outputs: Seq<Seq<char>>,
) -> Result<Ir, Seq<char>> {
    match args_text(ir.names, inputs) {
        Err(m) => Err(m),
        Ok(list) => {
            let esc = llvm_escaped(template, true);
            let cons = joined(constraints(outputs, inputs.len()), ","@);
            if outputs.len() == 0 {
                Ok(
                    ir.with(
                        ir.out + "  call void asm sideeffect inteldialect \""@ + esc + "\", \""@ + cons + "\"("@ + list + ")\n"@,
                    ),
                )
            } else {
                let res = tmp_name(bump(ir.tmp));
                Ok(
                    ir.fresh().with(
                        ir.out + "  "@ + res + " = call i64 asm sideeffect inteldialect \""@ + esc + "\", \""@ + cons + "\"("@ + list + ")\n"@,
                    ),
                )
            }
        },
    }
}

/// The word for a volatile access.
pub open spec fn volatile_word(v: bool) -> Seq<char> {
    if v {
        " volatile"@
    } else {
        ""@
    }
}

/// The state behind a load.
#[verifier::opaque]
pub open spec fn emit_load(ir: Ir, dst: Seq<char>, ptr: Operand, ty: PirType, volatile: bool) -> Result<
    Ir,
    Seq<char>,
> {
    match typed_operand(ir, ptr, ptr_to(ty)) {
        Err(m) => Err(m),
        Ok((i1, p)) => {
            let t = tmp_name(bump(i1.tmp));
            Ok(
                i1.fresh().with(
                    i1.out + "  "@ + t + " = load"@ + volatile_word(volatile) + " "@ + llvm_name(ty) + ", "@ + llvm_name(ptr_to(ty)) + " "@ + p + ", align 1\n"@,
                ).bind(dst, t),
            )
        },
    }
}

/// The state behind a store: a variable without an LLVM value gets a stack
/// slot.
#[verifier::opaque]
pub open spec fn emit_store(ir: Ir, ptr: Operand, value: Operand, ty: PirType, volatile: bool) -> Result<
    Ir,
    Seq<char>,
> {
    let place = match ptr {
        Operand::Var(v) => if !ir.names.contains_key(v) {
            Ok(stack_slot(ir, v, ty))
        } else {
            typed_operand(ir, ptr, ptr_to(ty))
        },
        _ => typed_operand(ir, ptr, ptr_to(ty)),
    };
    match place {
        Err(m) => Err(m),
        Ok((i1, p)) => match typed_operand(i1, value, ty) {
            Err(m) => Err(m),
            Ok((i2, v)) => Ok(
                i2.with(
                    i2.out + "  store"@ + volatile_word(volatile) + " "@ + llvm_name(ty) + " "@ + v + ", "@ + llvm_name(ptr_to(ty)) + " "@ + p + ", align 1\n"@,
                ),
            ),
        },
    }
}

/// The state behind an integer operation, with its value in the stack slot of
/// `dst`; a comparison is widened to the type of its operands.
#[verifier::opaque]
pub open spec fn emit_binop(ir: Ir, dst: Seq<char>, op: Seq<char>, lhs: Operand, rhs: Operand, ty: PirType) -> Result<
    Ir,
    Seq<char>,
> {
    match typed_operand(ir, lhs, ty) {
        Err(m) => Err(m),
        Ok((i1, l)) => match typed_operand(i1, rhs, ty) {
            Err(m) => Err(m),
            Ok((i2, r)) => {
                let res = tmp_name(bump(i2.tmp));
                let i3 = i2.fresh();
                let (i4, v) = if begins(op, "icmp_"@) {
                    let z = tmp_name(bump(i3.tmp));
                    (
                        i3.fresh().with(
                            i3.out + "  "@ + res + " = icmp "@ + op.skip(5) + " "@ + llvm_name(ty) + " "@ + l + ", "@ + r + "\n"@ + "  "@ + z + " = zext i1 "@ + res + " to "@ + llvm_name(ty) + "\n"@,
                        ),
                        z,
                    )
                } else {
                    (i3.with(i3.out + "  "@ + res + " = "@ + op + " "@ + llvm_name(ty) + " "@ + l + ", "@ + r + "\n"@), res)
                };
                let (i5, slot) = stack_slot(i4, dst, ty);
                Ok(
                    i5.with(
                        i5.out + "  store "@ + llvm_name(ty) + " "@ + v + ", "@ + llvm_name(ptr_to(ty)) + " "@ + slot + ", align 8\n"@,
                    ),
                )
            },
        },
    }
}

/// The text with the first `k` lines as comments.
pub open spec fn comment_lines(out: Seq<char>, ls: Seq<Seq<char>>, k: nat) -> Seq<char>
    decreases k,
{
    if k == 0 || k > ls.len() {
        out
    } else {
        comment_lines(out, ls, (k - 1) as nat) + "  ; "@ + ls[k - 1] + "\n"@
    }
}

/// The state behind the prefetch marker.
#[verifier::opaque]
pub open spec fn emit_prefetch(ir: Ir, ptr: Option<Operand>, hint: Seq<char>, stride: i64) -> Result<
    Ir,
    Seq<char>,
> {
    let place = match ptr {
        Some(op) => erased_operand(ir, op),
        None => Ok("null"@),
    };
    match place {
        Err(m) => Err(m),
        Ok(p) => Ok(
            ir.with(
                ir.out + "  ; C* @prefetch hint="@ + hint + " stride="@ + int_dec(stride as int) + "\n"@ + "  call void @llvm.prefetch.p0i8(i8* "@ + p + ", i32 0, i32 "@ + locality(hint) + ", i32 1)\n"@,
            ),
        ),
    }
}

/// The locality of a prefetch hint.
pub open spec fn locality(hint: Seq<char>) -> Seq<char> {
    if hint == "sequential"@ {
        "3"@
    } else {
        "1"@
    }
}

/// The state behind a node that leaves comments, windows or names only.
#[verifier::opaque]
pub open spec fn emit_marker(ir: Ir, n: Node) -> Result<Ir, Seq<char>> {
    match n {
        Node::Move { dst, src, ty } => if ir.names.contains_key(src) {
            Ok(ir.bind(dst, ir.names[src]))
        } else {
            Err("C* move source '"@ + src + "' has no LLVM value"@)
        },
        Node::Consume { var } => if ir.names.contains_key(var) {
            Ok(ir)
        } else {
            Err("C* consume target '"@ + var + "' has no LLVM value"@)
        },
        Node::Pipeline { function, priority, dma_stage, compute_stage } => Ok(
            ir.with(
                ir.out + "  ; C* @pipeline function="@ + function + " priority="@ + priority + " dma="@ + dma_stage + " compute="@ + compute_stage + "\n  call void asm sideeffect \"# cstar dma window\", \"\"()\n  call void asm sideeffect \"# cstar compute window\", \"\"()\n"@,
            ),
        ),
        Node::PatchMarker { function, base, output } => Ok(
            ir.with(
                ir.out + "  ; C* @patch function="@ + function + " base="@ + base + " output="@ + output + "\n"@,
            ),
        ),
        Node::PackageMarker { name, partition, size, offset, checksum } => Ok(
            ir.with(
                ir.out + "  ; C* package "@ + name + " partition="@ + partition + " size="@ + dec(size as nat) + " offset="@ + dec(offset as nat) + " checksum="@ + dec(checksum as nat) + "\n"@,
            ),
        ),
        Node::Comment(t) => Ok(ir.with(comment_lines(ir.out, lines(t), lines(t).len()))),
        _ => Ok(ir),
    }
}

/// The state behind a node.
pub open spec fn emit_node(ir: Ir, n: Node) -> Result<Ir, Seq<char>>
    decreases n,
{
    match n {
        Node::AllocLinear { dst, bytes, ty } => emit_alloc(ir, dst, bytes, ty),
        Node::Call { dst, func, args, ret_ty } => emit_call(ir, dst, func, args, ret_ty),
        Node::AsmBlock { template, inputs, outputs } => emit_asm_block(
            ir,
            template,
            inputs,
            outputs,
        ),
        Node::Prefetch { ptr, hint, stride } => emit_prefetch(ir, ptr, hint, stride),
        Node::Loop { label, body } => emit_region(ir, label, body),
        Node::WhileLoop { label, condition, body } => emit_region(ir, label, body),
        Node::Load { dst, ptr, ty, volatile } => emit_load(ir, dst, ptr, ty, volatile),
        Node::Store { ptr, value, ty, volatile } => emit_store(ir, ptr, value, ty, volatile),
        Node::BinOp { dst, op, lhs, rhs, ty } => emit_binop(ir, dst, op, lhs, rhs, ty),
        _ => emit_marker(ir, n),
    }
}

/// The state behind a loop: its body stands once between two comments.
pub open spec fn emit_region(ir: Ir, label: Seq<char>, body: Seq<Node>) -> Result<Ir, Seq<char>>
    decreases body, body.len() + 1,
{
    match emit_nodes(ir.with(ir.out + "  ; C* loop region "@ + label + " begins\n"@), body, 0) {
        Err(m) => Err(m),
        Ok(i1) => Ok(i1.with(i1.out + "  ; C* loop region "@ + label + " ends\n"@)),
    }
}

/// The state behind the nodes at and behind `i`.
pub open spec fn emit_nodes(ir: Ir, ns: Seq<Node>, i: nat) -> Result<Ir, Seq<char>>
    decreases ns, ns.len() - i,
{
    if i >= ns.len() {
        Ok(ir)
    } else {
        match emit_node(ir, ns[i as int]) {
            Ok(q) => emit_nodes(q, ns, i + 1),
            Err(m) => Err(m),
        }
    }
}

// ---------------------------------------------------------------------------
// Functions and programs
// ---------------------------------------------------------------------------

/// Parameter types with commas between them, up to parameter `k`.
pub open spec fn type_list(ts: Seq<PirType>) -> Seq<Seq<char>> {
    Seq::new(ts.len(), |i: int| llvm_name(ts[i]))
}

/// Parameters with their types.
pub open spec fn param_list(ps: Seq<(Seq<char>, PirType)>) -> Seq<Seq<char>> {
    Seq::new(ps.len(), |i: int| llvm_name(ps[i].1) + " %"@ + sanitized(ps[i].0))
}

/// The values of the first `k` parameters.
pub open spec fn param_names(ps: Seq<(Seq<char>, PirType)>, k: nat) -> Map<Seq<char>, Seq<char>>
    decreases k,
{
    if k == 0 || k > ps.len() {
        Map::empty()
    } else {
        param_names(ps, (k - 1) as nat).insert(ps[k - 1].0, "%"@ + sanitized(ps[k - 1].0))
    }
}

/// The section attribute of a function.
pub open spec fn section_attribute(s: Option<Seq<char>>) -> Seq<char> {
    match s {
        Some(x) => " section \""@ + llvm_escaped(x, false) + "\""@,
        None => Seq::empty(),
    }
}

/// The text with the return at the end of a function.
#[verifier::opaque]
pub open spec fn default_return(out: Seq<char>, t: PirType) -> Seq<char> {
    match t {
        PirType::Void => out + "  ret void\n"@,
        PirType::I1 => out + "  ret i1 0\n"@,
        PirType::I8 => out + "  ret i8 0\n"@,
        PirType::I32 => out + "  ret i32 0\n"@,
        PirType::I64 => out + "  ret i64 0\n"@,
        PirType::F64 => out + "  ret double 0.0\n"@,
        PirType::Ptr(_) => out + "  ret "@ + llvm_name(t) + " null\n"@,
    }
}

/// The state at the start of a function body.
#[verifier::opaque]
pub open spec fn function_head(ir: Ir, f: Function) -> Ir {
    let o1 = ir.out + "define "@ + llvm_name(f.ret_ty) + " @"@ + sanitized(f.name) + "("@ + joined(param_list(f.params), ", "@) + ")"@ + section_attribute(f.section) + " {\nentry:\n"@;
    let o2 = if f.is_pipeline {
        o1 + "  ; C* function has @pipeline: DMA and compute windows are emitted below.\n"@
    } else {
        o1
    };
    Ir {
        out: if f.is_prefetch {
            o2 + "  ; C* function has @prefetch: llvm.prefetch is emitted below.\n"@
        } else {
            o2
        },
        names: param_names(f.params, f.params.len()),
        slots: Map::empty(),
        tmp: ir.tmp,
    }
}

/// The state behind a function.
pub open spec fn emit_function(ir: Ir, f: Function) -> Result<Ir, Seq<char>> {
    match emit_nodes(function_head(ir, f), f.body, 0) {
        Err(m) => Err(m),
        Ok(i1) => Ok(i1.with(default_return(i1.out, f.ret_ty) + "}\n\n"@)),
    }
}

/// The state behind the functions at and behind `i`.
pub open spec fn emit_functions(ir: Ir, fs: Seq<Function>, i: int) -> Result<Ir, Seq<char>>
    decreases fs.len() - i,
{
    if i < 0 || i >= fs.len() {
        Ok(ir)
    } else {
        match emit_function(ir, fs[i]) {
            Ok(q) => emit_functions(q, fs, i + 1),
            Err(m) => Err(m),
        }
    }
}

/// The text with the first `k` declarations.
#[verifier::opaque]
pub open spec fn externs_text(out: Seq<char>, es: Seq<Declared>, k: nat) -> Seq<char>
    decreases k,
{
    if k == 0 || k > es.len() {
        out
    } else {
        externs_text(out, es, (k - 1) as nat) + "declare "@ + llvm_name(es[k - 1].ret_ty) + " @"@ + sanitized(es[k - 1].name) + "("@ + joined(type_list(es[k - 1].params), ", "@) + ")\n"@
    }
}

/// The text with the first `k` interrupt records.
#[verifier::opaque]
pub open spec fn isrs_text(out: Seq<char>, es: Seq<Isr>, k: nat) -> Seq<char>
    decreases k,
{
    if k == 0 || k > es.len() {
        out
    } else {
        isrs_text(out, es, (k - 1) as nat) + "@__cstar_isr_"@ + sanitized(es[k - 1].handler) + " = global { i8*, i64, i64, i64 } { i8* bitcast (void ()* @"@ + sanitized(es[k - 1].handler) + " to i8*), i64 "@ + int_dec(es[k - 1].priority as int) + ", i64 "@ + int_dec(es[k - 1].budget_us as int) + ", i64 "@ + dec(es[k - 1].wcet_cycles as nat) + " }, section \".isr\", align 8\n"@
    }
}

/// The text with the records of the first `k` packages.
#[verifier::opaque]
pub open spec fn packages_text(out: Seq<char>, es: Seq<Package>, k: nat) -> Seq<char>
    decreases k,
{
    if k == 0 || k > es.len() {
        out
    } else {
        packages_text(out, es, (k - 1) as nat) + "@__cstar_pkg_"@ + sanitized(es[k - 1].name) + " = constant { i64, i64, i64 } { i64 "@ + dec(es[k - 1].offset as nat) + ", i64 "@ + dec(es[k - 1].size as nat) + ", i64 "@ + dec(es[k - 1].checksum as nat) + " }, section \".pkgmeta\", align 8 ; "@ + es[k - 1].name + ":"@ + es[k - 1].partition + "\n"@
    }
}

/// The text with the records of the first `k` patches.
#[verifier::opaque]
pub open spec fn patches_text(out: Seq<char>, es: Seq<Patch>, k: nat) -> Seq<char>
    decreases k,
{
    if k == 0 || k > es.len() {
        out
    } else {
        patches_text(out, es, (k - 1) as nat) + "@__cstar_patch_"@ + sanitized(es[k - 1].function) + " = constant { i64, i64 } { i64 "@ + dec(hash_of(es[k - 1].base) as nat) + ", i64 "@ + dec(hash_of(es[k - 1].output) as nat) + " }, section \".patchmeta\", align 8 ; base="@ + es[k - 1].base + " output="@ + es[k - 1].output + "\n"@
    }
}

/// The head of a module: comments, the target, and the functions that it may
/// call.
pub open spec fn module_head() -> Seq<char> {
    Seq::<char>::empty()
        + "; Vredrs C* raw backend LLVM IR - phase 3\n; No interpreter Value, GC, coroutine scheduler or refcount runtime is linked.\ntarget triple = \"x86_64-unknown-linux-gnu\"\n\ndeclare i8* @malloc(i64)\ndeclare void @free(i8*)\ndeclare void @llvm.prefetch.p0i8(i8*, i32, i32, i32)\n"@
}

/// The text in front of the functions.
#[verifier::opaque]
pub open spec fn records_text(p: Pir) -> Seq<char> {
    let o1 = externs_text(module_head(), p.externs, p.externs.len());
    let o2 = if p.externs.len() > 0 {
        o1 + "\n"@
    } else {
        o1
    };
    let o3 = isrs_text(o2, p.isr_entries, p.isr_entries.len());
    let o4 = packages_text(o3, p.packages, p.packages.len());
    let o5 = patches_text(o4, p.patch_plans, p.patch_plans.len());
    if p.isr_entries.len() > 0 || p.packages.len() > 0 || p.patch_plans.len() > 0 {
        o5 + "\n"@
    } else {
        o5
    }
}

/// The LLVM module of a program.
pub open spec fn module_text(p: Pir) -> Result<Seq<char>, Seq<char>> {
    let start = Ir { out: records_text(p), names: Map::empty(), slots: Map::empty(), tmp: 0 };
    match emit_functions(start, p.functions, 0) {
        Err(m) => Err(m),
        Ok(i1) => if p.nodes.len() == 0 {
            Ok(i1.out)
        } else {
            match emit_nodes(i1.with(i1.out + "define i32 @main() {\nentry:\n"@), p.nodes, 0) {
                Err(m) => Err(m),
                Ok(i2) => Ok(i2.out + "  ret i32 0\n}\n"@),
            }
        },
    }
}

// ---------------------------------------------------------------------------
// The emitter
// ---------------------------------------------------------------------------

/// The LLVM emitter of a program.
pub struct CstarLlvmEmitter {
    out: String,
    names: TextMap,
    stack_slots: TextMap,
    tmp: usize,
}

impl View for CstarLlvmEmitter {
    type V = Ir;

    closed spec fn view(&self) -> Ir {
        Ir { out: self.out@, names: self.names@, slots: self.stack_slots@, tmp: self.tmp }
    }
}

/// What a step that emits or fails has come to.
pub open spec fn emitted(r: Result<(), CompilerError>, e: CstarLlvmEmitter) -> Result<
    Ir,
    Seq<char>,
> {
    match r {
        Ok(_) => Ok(e@),
        Err(m) => Err(m.text()),
    }
}

/// What a step that emits and gives a value, or fails, has come to.
pub open spec fn emitted_value(r: Result<String, CompilerError>, e: CstarLlvmEmitter) -> Result<
    (Ir, Seq<char>),
    Seq<char>,
> {
    match r {
        Ok(s) => Ok((e@, s@)),
        Err(m) => Err(m.text()),
    }
}

/// A failure for a variable without a value.
fn missing_value(v: &str) -> (r: CompilerError)
    ensures
        r.text() == no_value(v@),
{
    let mut m = text("C* variable '");
    m.append(v);
    m.append("' has no LLVM value");
    CompilerError::codegen_error(m)
}

impl CstarLlvmEmitter {
    /// A new emitter.
    pub fn new() -> (r: Self)
        ensures
            r@ == (Ir { out: Seq::empty(), names: Map::empty(), slots: Map::empty(), tmp: 0 }),
    {
        let r = CstarLlvmEmitter {
            out: String::new(),
            names: TextMap::new(),
            stack_slots: TextMap::new(),
            tmp: 0,
        };
        assert(r.out@ =~= Seq::<char>::empty());
        r
    }

    /// The name of a new temporary.
    fn next_tmp(&mut self) -> (r: String)
        ensures
            final(self)@ == old(self)@.fresh(),
            r@ == tmp_name(bump(old(self)@.tmp)),
    {
        reveal(tmp_name);
        self.tmp = bumped(self.tmp);
        numbered("%cstar", self.tmp as u64)
    }

    /// The LLVM value of an operand of type `ty`.
    fn operand_with_type(&mut self, op: &PirOperand, ty: &PirType) -> (r: Result<
        String,
        CompilerError,
    >)
        ensures
            emitted_value(r, *final(self)) == typed_operand(old(self)@, op@, *ty),
    {
        reveal(typed_operand);
        match op {
            PirOperand::Int(i) => Ok(int_text(*i)),
            PirOperand::Bool(b) => Ok(
                text(
                    if *b {
                        "1"
                    } else {
                        "0"
                    },
                ),
            ),
            PirOperand::NullPtr => Ok(text("null")),
            PirOperand::Var(v) => {
                match self.stack_slots.get(v.as_str()) {
                    Some(slot) => {
                        let slot = text(slot);
                        if ty.is_ptr() {
                            return Ok(slot);
                        }
                        let t = self.next_tmp();
                        let tn = ty.llvm();
                        let pn = pointer_name(ty);
                        self.out.append("  ");
                        self.out.append(t.as_str());
                        self.out.append(" = load ");
                        self.out.append(tn.as_str());
                        self.out.append(", ");
                        self.out.append(pn.as_str());
                        self.out.append(" ");
                        self.out.append(slot.as_str());
                        self.out.append(", align 8\n");
                        return Ok(t);
                    },
                    None => {},
                }
                let val = match self.names.get(v.as_str()) {
                    Some(x) => text(x),
                    None => {
                        return Err(missing_value(v.as_str()));
                    },
                };
                let tn = ty.llvm();
                if ty.is_ptr() && !same(tn.as_str(), "i8*") {
                    let t = self.next_tmp();
                    self.out.append("  ");
                    self.out.append(t.as_str());
                    self.out.append(" = bitcast i8* ");
                    self.out.append(val.as_str());
                    self.out.append(" to ");
                    self.out.append(tn.as_str());
                    self.out.append("\n");
                    Ok(t)
                } else {
                    Ok(val)
                }
            },
        }
    }

    /// The LLVM value of an operand as a pointer to bytes.
    fn operand_ptr_erased(&self, op: &PirOperand) -> (r: Result<String, CompilerError>)
        ensures
            text_outcome(r) == erased_operand(self@, op@),
    {
        reveal(erased_operand);
        match op {
            PirOperand::NullPtr => Ok(text("null")),
            PirOperand::Var(v) => match self.names.get(v.as_str()) {
                Some(x) => Ok(text(x)),
                None => {
                    let mut m = text("C* ptr variable '");
                    m.append(v.as_str());
                    m.append("' has no LLVM value");
                    Err(CompilerError::codegen_error(m))
                },
            },
            _ => fail("C* expected pointer operand"),
        }
    }

    /// The stack slot of a variable, which gets one where it has none.
    fn ensure_stack_slot(&mut self, name: &str, ty: &PirType) -> (r: String)
        ensures
            (final(self)@, r@) == stack_slot(old(self)@, name@, *ty),
    {
        reveal(stack_slot);
        match self.stack_slots.get(name) {
            Some(slot) => {
                return text(slot);
            },
            None => {},
        }
        let t = self.next_tmp();
        let tn = ty.llvm();
        self.out.append("  ");
        self.out.append(t.as_str());
        self.out.append(" = alloca ");
        self.out.append(tn.as_str());
        self.out.append(", align 8\n");
        self.stack_slots.insert(text(name), t.clone());
        t
    }

    /// An argument of a call.
    fn render_arg(&self, op: &PirOperand) -> (r: Result<String, CompilerError>)
        ensures
            text_outcome(r) == arg_value(self@.names, op@),
    {
        match op {
            PirOperand::Int(i) => {
                let mut s = text("i64 ");
                push_int(&mut s, *i);
                Ok(s)
            },
            PirOperand::Bool(b) => Ok(
                text(
                    if *b {
                        "i1 1"
                    } else {
                        "i1 0"
                    },
                ),
            ),
            PirOperand::NullPtr => Ok(text("i8* null")),
            PirOperand::Var(v) => match self.names.get(v.as_str()) {
                Some(x) => Ok(cat("i8* ", x)),
                None => Err(missing_value(v.as_str())),
            },
        }
    }

    /// The argument list of a call.
    fn render_args(&self, ops: &Vec<PirOperand>) -> (r: Result<String, CompilerError>)
        ensures
            text_outcome(r) == args_text(self@.names, operands(ops@)),
    {
        reveal(args_text);
        let mut out = TextList::new();
        let mut i: usize = 0;
        while i < ops.len()
            invariant
                i <= ops@.len(),
                arg_values(Seq::empty(), self@.names, operands(ops@), 0) == arg_values(
                    out@,
                    self@.names,
                    operands(ops@),
                    i as int,
                ),
            decreases ops@.len() - i,
        {
            reveal(args_text);
            assert(operands(ops@)[i as int] == ops@[i as int]@);
            match self.render_arg(&ops[i]) {
                Ok(s) => {
                    out.push(s);
                },
                Err(m) => {
                    return Err(m);
                },
            }
            i = i + 1;
        }
        Ok(out.join(", "))
    }

    /// Emits an allocation.
    fn emit_alloc_linear(&mut self, dst: &str, bytes: &PirOperand, ty: &PirType) -> (r: Result<
        (),
        CompilerError,
    >)
        ensures
            emitted(r, *final(self)) == emit_alloc(old(self)@, dst@, bytes@, *ty),
    {
        reveal(emit_alloc);
        let n: i64 = match bytes {
            PirOperand::Int(n) => *n,
            _ => {
                return fail("C* expected i64 integer operand");
            },
        };
        let raw = self.next_tmp();
        self.out.append("  ");
        self.out.append(raw.as_str());
        self.out.append(" = call i8* @malloc(i64 ");
        push_int(&mut self.out, n);
        self.out.append(")\n");
        let tn = ty.llvm();
        if same(tn.as_str(), "i8*") {
            self.names.insert(text(dst), raw);
        } else {
            let cast = self.next_tmp();
            self.out.append("  ");
            self.out.append(cast.as_str());
            self.out.append(" = bitcast i8* ");
            self.out.append(raw.as_str());
            self.out.append(" to ");
            self.out.append(tn.as_str());
            self.out.append("\n");
            self.names.insert(text(dst), cast);
        }
        Ok(())
    }

    /// Emits a call.
    fn emit_raw_call(
        &mut self,
        dst: &Option<String>,
        func: &str,
        args: &Vec<PirOperand>,
        ret_ty: &PirType,
    ) -> (r: Result<(), CompilerError>)
        ensures
            emitted(r, *final(self)) == emit_call(
                old(self)@,
                opt_view(*dst),
                func@,
                operands(args@),
                *ret_ty,
            ),
    {
        reveal(emit_call);
        if same(func, "free") || same(func, "consume") {
            if args.len() == 0 {
                return fail("C* free requires one argument");
            }
            assert(operands(args@)[0] == args@[0]@);
            return match self.operand_ptr_erased(&args[0]) {
                Ok(p) => {
                    self.out.append("  call void @free(i8* ");
                    self.out.append(p.as_str());
                    self.out.append(")\n");
                    Ok(())
                },
                Err(m) => Err(m),
            };
        }
        let list = match self.render_args(args) {
            Ok(s) => s,
            Err(m) => {
                return Err(m);
            },
        };
        let name = sanitize_symbol(func);
        match ret_ty {
            PirType::Void => {
                self.out.append("  call void @");
                self.out.append(name.as_str());
                self.out.append("(");
                self.out.append(list.as_str());
                self.out.append(")\n");
            },
            _ => {
                let res = self.next_tmp();
                let tn = ret_ty.llvm();
                self.out.append("  ");
                self.out.append(res.as_str());
                self.out.append(" = call ");
                self.out.append(tn.as_str());
                self.out.append(" @");
                self.out.append(name.as_str());
                self.out.append("(");
                self.out.append(list.as_str());
                self.out.append(")\n");
                match dst {
                    Some(d) => {
                        self.names.insert(d.clone(), res);
                    },
                    None => {},
                }
            },
        }
        Ok(())
    }

    /// Emits an inline assembly block.
    fn emit_inline_asm(
        &mut self,
        template: &str,
        inputs: &Vec<PirOperand>,
        outputs: &Vec<String>,
    ) -> (r: Result<(), CompilerError>)
        ensures
            emitted(r, *final(self)) == emit_asm_block(
                old(self)@,
                template@,
                operands(inputs@),
                texts(outputs@),
            ),
    {
        reveal(emit_asm_block);
        let esc = escape_llvm(template, true);
        let cons = constraint_text(outputs, inputs.len());
        let list = match self.render_args(inputs) {
            Ok(s) => s,
            Err(m) => {
                return Err(m);
            },
        };
        if outputs.len() == 0 {
            self.out.append("  call void asm sideeffect inteldialect \"");
            self.out.append(esc.as_str());
            self.out.append("\", \"");
            self.out.append(cons.as_str());
            self.out.append("\"(");
            self.out.append(list.as_str());
            self.out.append(")\n");
        } else {
            let res = self.next_tmp();
            self.out.append("  ");
            self.out.append(res.as_str());
            self.out.append(" = call i64 asm sideeffect inteldialect \"");
            self.out.append(esc.as_str());
            self.out.append("\", \"");
            self.out.append(cons.as_str());
            self.out.append("\"(");
            self.out.append(list.as_str());
            self.out.append(")\n");
        }
        Ok(())
    }

    /// Emits a load.
    fn emit_ptr_load(&mut self, dst: &str, ptr: &PirOperand, ty: &PirType, volatile: bool) -> (r:
        Result<(), CompilerError>)
        ensures
            emitted(r, *final(self)) == emit_load(old(self)@, dst@, ptr@, *ty, volatile),
    {
        reveal(emit_load);
        let pt = PirType::Ptr(Box::new(ty.copy()));
        let p = match self.operand_with_type(ptr, &pt) {
            Ok(p) => p,
            Err(m) => {
                return Err(m);
            },
        };
        let t = self.next_tmp();
        let tn = ty.llvm();
        let pn = pt.llvm();
        self.out.append("  ");
        self.out.append(t.as_str());
        self.out.append(" = load");
        self.out.append(volatile_text(volatile));
        self.out.append(" ");
        self.out.append(tn.as_str());
        self.out.append(", ");
        self.out.append(pn.as_str());
        self.out.append(" ");
        self.out.append(p.as_str());
        self.out.append(", align 1\n");
        self.names.insert(text(dst), t);
        Ok(())
    }

    /// Emits a store.
    fn emit_ptr_store(
        &mut self,
        ptr: &PirOperand,
        value: &PirOperand,
        ty: &PirType,
        volatile: bool,
    ) -> (r: Result<(), CompilerError>)
        ensures
            emitted(r, *final(self)) == emit_store(old(self)@, ptr@, value@, *ty, volatile),
    {
        reveal(emit_store);
        let pt = PirType::Ptr(Box::new(ty.copy()));
        let local: Option<&str> = match ptr {
            PirOperand::Var(v) => {
                if self.names.contains_key(v.as_str()) {
                    None
                } else {
                    Some(v.as_str())
                }
            },
            _ => None,
        };
        let p = match local {
            Some(v) => self.ensure_stack_slot(v, ty),
            None => match self.operand_with_type(ptr, &pt) {
                Ok(p) => p,
                Err(m) => {
                    return Err(m);
                },
            },
        };
        let v = match self.operand_with_type(value, ty) {
            Ok(v) => v,
            Err(m) => {
                return Err(m);
            },
        };
        let tn = ty.llvm();
        let pn = pt.llvm();
        self.out.append("  store");
        self.out.append(volatile_text(volatile));
        self.out.append(" ");
        self.out.append(tn.as_str());
        self.out.append(" ");
        self.out.append(v.as_str());
        self.out.append(", ");
        self.out.append(pn.as_str());
        self.out.append(" ");
        self.out.append(p.as_str());
        self.out.append(", align 1\n");
        Ok(())
    }

    /// Emits an integer operation.
    fn emit_bin_op(
        &mut self,
        dst: &str,
        op: &str,
        lhs: &PirOperand,
        rhs: &PirOperand,
        ty: &PirType,
    ) -> (r: Result<(), CompilerError>)
        ensures
            emitted(r, *final(self)) == emit_binop(old(self)@, dst@, op@, lhs@, rhs@, *ty),
    {
        reveal(emit_binop);
        let l = match self.operand_with_type(lhs, ty) {
            Ok(v) => v,
            Err(m) => {
                return Err(m);
            },
        };
        let r = match self.operand_with_type(rhs, ty) {
            Ok(v) => v,
            Err(m) => {
                return Err(m);
            },
        };
        let res = self.next_tmp();
        let tn = ty.llvm();
        let v = if starts_with(op, "icmp_") {
            proof {
                reveal_strlit("icmp_");
            }
            let cs: Vec<char> = chars(op);
            let pred = slice_text(&cs, 5, cs.len());
            assert(pred@ =~= op@.skip(5));
            self.out.append("  ");
            self.out.append(res.as_str());
            self.out.append(" = icmp ");
            self.out.append(pred.as_str());
            self.out.append(" ");
            self.out.append(tn.as_str());
            self.out.append(" ");
            self.out.append(l.as_str());
            self.out.append(", ");
            self.out.append(r.as_str());
            self.out.append("\n");
            let z = self.next_tmp();
            self.out.append("  ");
            self.out.append(z.as_str());
            self.out.append(" = zext i1 ");
            self.out.append(res.as_str());
            self.out.append(" to ");
            self.out.append(tn.as_str());
            self.out.append("\n");
            z
        } else {
            self.out.append("  ");
            self.out.append(res.as_str());
            self.out.append(" = ");
            self.out.append(op);
            self.out.append(" ");
            self.out.append(tn.as_str());
            self.out.append(" ");
            self.out.append(l.as_str());
            self.out.append(", ");
            self.out.append(r.as_str());
            self.out.append("\n");
            res
        };
        let slot = self.ensure_stack_slot(dst, ty);
        let pn = pointer_name(ty);
        self.out.append("  store ");
        self.out.append(tn.as_str());
        self.out.append(" ");
        self.out.append(v.as_str());
        self.out.append(", ");
        self.out.append(pn.as_str());
        self.out.append(" ");
        self.out.append(slot.as_str());
        self.out.append(", align 8\n");
        Ok(())
    }

    /// Emits a prefetch marker.
    fn emit_prefetch_marker(&mut self, ptr: &Option<PirOperand>, hint: &str, stride: i64) -> (r:
        Result<(), CompilerError>)
        ensures
            emitted(r, *final(self)) == emit_prefetch(
                old(self)@,
                match *ptr {
                    Some(p) => Some(p@),
                    None => None,
                },
                hint@,
                stride,
            ),
    {
        reveal(emit_prefetch);
        let p = match ptr {
            Some(op) => match self.operand_ptr_erased(op) {
                Ok(p) => p,
                Err(m) => {
                    return Err(m);
                },
            },
            None => text("null"),
        };
        self.out.append("  ; C* @prefetch hint=");
        self.out.append(hint);
        self.out.append(" stride=");
        push_int(&mut self.out, stride);
        self.out.append("\n");
        let l = if same(hint, "sequential") {
            "3"
        } else {
            "1"
        };
        self.out.append("  call void @llvm.prefetch.p0i8(i8* ");
        self.out.append(p.as_str());
        self.out.append(", i32 0, i32 ");
        self.out.append(l);
        self.out.append(", i32 1)\n");
        Ok(())
    }

    /// Emits lines as comments.
    fn emit_comment(&mut self, t: &str)
        ensures
            final(self)@ == old(self)@.with(
                comment_lines(old(self)@.out, lines(t@), lines(t@).len()),
            ),
    {
        let ls = lines_of(t);
        let mut k: usize = 0;
        while k < ls.len()
            invariant
                k <= ls@.len(),
                self@ == old(self)@.with(comment_lines(old(self)@.out, ls@, k as nat)),
            decreases ls@.len() - k,
        {
            self.out.append("  ; ");
            self.out.append(ls.get(k));
            self.out.append("\n");
            k = k + 1;
        }
    }

    /// Emits a node that leaves comments, windows or names only.
    fn emit_marker_node(&mut self, n: &PirNode) -> (r: Result<(), CompilerError>)
        ensures
            emitted(r, *final(self)) == emit_marker(old(self)@, n@),
    {
        reveal(emit_marker);
        match n {
            PirNode::Move { dst, src, .. } => {
                let val = match self.names.get(src.as_str()) {
                    Some(x) => text(x),
                    None => {
                        let mut m = text("C* move source '");
                        m.append(src.as_str());
                        m.append("' has no LLVM value");
                        return Err(CompilerError::codegen_error(m));
                    },
                };
                self.names.insert(dst.clone(), val);
            },
            PirNode::Consume { var } => {
                if !self.names.contains_key(var.as_str()) {
                    let mut m = text("C* consume target '");
                    m.append(var.as_str());
                    m.append("' has no LLVM value");
                    return Err(CompilerError::codegen_error(m));
                }
            },
            PirNode::Pipeline { function, priority, dma_stage, compute_stage } => {
                self.out.append("  ; C* @pipeline function=");
                self.out.append(function.as_str());
                self.out.append(" priority=");
                self.out.append(priority.as_str());
                self.out.append(" dma=");
                self.out.append(dma_stage.as_str());
                self.out.append(" compute=");
                self.out.append(compute_stage.as_str());
                self.out.append("\n  call void asm sideeffect \"# cstar dma window\", \"\"()\n  call void asm sideeffect \"# cstar compute window\", \"\"()\n");
            },
            PirNode::PatchMarker { function, base, output } => {
                self.out.append("  ; C* @patch function=");
                self.out.append(function.as_str());
                self.out.append(" base=");
                self.out.append(base.as_str());
                self.out.append(" output=");
                self.out.append(output.as_str());
                self.out.append("\n");
            },
            PirNode::PackageMarker { name, partition, size, offset, checksum } => {
                self.out.append("  ; C* package ");
                self.out.append(name.as_str());
                self.out.append(" partition=");
                self.out.append(partition.as_str());
                self.out.append(" size=");
                push_dec(&mut self.out, *size);
                self.out.append(" offset=");
                push_dec(&mut self.out, *offset);
                self.out.append(" checksum=");
                push_dec(&mut self.out, *checksum);
                self.out.append("\n");
            },
            PirNode::Comment(t) => {
                self.emit_comment(t.as_str());
            },
            _ => {},
        }
        Ok(())
    }

    /// Emits a node.
    fn emit_node(&mut self, n: &PirNode) -> (r: Result<(), CompilerError>)
        ensures
            emitted(r, *final(self)) == emit_node(old(self)@, n@),
        decreases n, 2nat,
    {
        match n {
            PirNode::AllocLinear { dst, bytes, ty } => self.emit_alloc_linear(
                dst.as_str(),
                bytes,
                ty,
            ),
            PirNode::Call { dst, func, args, ret_ty } => self.emit_raw_call(
                dst,
                func.as_str(),
                args,
                ret_ty,
            ),
            PirNode::AsmBlock { template, inputs, outputs } => self.emit_inline_asm(
                template.as_str(),
                inputs,
                outputs,
            ),
            PirNode::Prefetch { ptr, hint, stride } => self.emit_prefetch_marker(
                ptr,
                hint.as_str(),
                *stride,
            ),
            PirNode::Loop { label, body } => self.emit_loop(label.as_str(), body),
            PirNode::WhileLoop { label, condition: _, body } => self.emit_loop(
                label.as_str(),
                body,
            ),
            PirNode::Load { dst, ptr, ty, volatile } => self.emit_ptr_load(
                dst.as_str(),
                ptr,
                ty,
                *volatile,
            ),
            PirNode::Store { ptr, value, ty, volatile } => self.emit_ptr_store(
                ptr,
                value,
                ty,
                *volatile,
            ),
            PirNode::BinOp { dst, op, lhs, rhs, ty } => self.emit_bin_op(
                dst.as_str(),
                op.as_str(),
                lhs,
                rhs,
                ty,
            ),
            _ => self.emit_marker_node(n),
        }
    }

    /// Emits a loop.
    fn emit_loop(&mut self, label: &str, body: &Vec<PirNode>) -> (r: Result<(), CompilerError>)
        ensures
            emitted(r, *final(self)) == emit_region(old(self)@, label@, nodes_of(body@)),
        decreases body@, 1nat,
    {
        self.out.append("  ; C* loop region ");
        self.out.append(label);
        self.out.append(" begins\n");
        match self.emit_list(body) {
            Ok(_) => {},
            Err(m) => {
                return Err(m);
            },
        }
        self.out.append("  ; C* loop region ");
        self.out.append(label);
        self.out.append(" ends\n");
        Ok(())
    }

    /// Emits nodes one after the other.
    fn emit_list(&mut self, ns: &Vec<PirNode>) -> (r: Result<(), CompilerError>)
        ensures
            emitted(r, *final(self)) == emit_nodes(old(self)@, nodes_of(ns@), 0),
        decreases ns@, 0nat,
    {
        let mut i: usize = 0;
        while i < ns.len()
            invariant
                i <= ns@.len(),
                emit_nodes(old(self)@, nodes_of(ns@), 0) == emit_nodes(
                    self@,
                    nodes_of(ns@),
                    i as nat,
                ),
            decreases ns@.len() - i,
        {
            assert(nodes_of(ns@)[i as int] == node_of(ns@[i as int]));
            match self.emit_node(&ns[i]) {
                Ok(_) => {},
                Err(m) => {
                    return Err(m);
                },
            }
            i = i + 1;
        }
        Ok(())
    }

    /// Emits the head of a function.
    fn emit_function_head(&mut self, f: &PirFunction)
        ensures
            final(self)@ == function_head(old(self)@, f@),
    {
        reveal(function_head);
        self.names.clear();
        self.stack_slots.clear();
        let args = param_text(&f.params);
        let section = match &f.section {
            Some(s) => {
                let e = escape_llvm(s.as_str(), false);
                let mut x = text(" section \"");
                x.append(e.as_str());
                x.append("\"");
                x
            },
            None => {
                let x = String::new();
                assert(x@ =~= Seq::<char>::empty());
                x
            },
        };
        let ret = f.ret_ty.llvm();
        let name = sanitize_symbol(f.name.as_str());
        self.out.append("define ");
        self.out.append(ret.as_str());
        self.out.append(" @");
        self.out.append(name.as_str());
        self.out.append("(");
        self.out.append(args.as_str());
        self.out.append(")");
        self.out.append(section.as_str());
        self.out.append(" {\nentry:\n");
        let ghost ps = params_of(f.params@);
        let ghost head = self@;
        let mut k: usize = 0;
        while k < f.params.len()
            invariant
                k <= f.params@.len(),
                ps == params_of(f.params@),
                self@ == (Ir { names: param_names(ps, k as nat), ..head }),
            decreases f.params@.len() - k,
        {
            let s = sanitize_symbol(f.params[k].0.as_str());
            self.names.insert(f.params[k].0.clone(), cat("%", s.as_str()));
            k = k + 1;
        }
        if f.is_pipeline {
            self.out.append(
                "  ; C* function has @pipeline: DMA and compute windows are emitted below.\n",
            );
        }
        if f.is_prefetch {
            self.out.append("  ; C* function has @prefetch: llvm.prefetch is emitted below.\n");
        }
    }

    /// Emits a function.
    fn emit_function(&mut self, f: &PirFunction) -> (r: Result<(), CompilerError>)
        ensures
            emitted(r, *final(self)) == emit_function(old(self)@, f@),
    {
        self.emit_function_head(f);
        match self.emit_list(&f.body) {
            Ok(_) => {},
            Err(m) => {
                return Err(m);
            },
        }
        reveal(default_return);
        match &f.ret_ty {
            PirType::Void => {
                self.out.append("  ret void\n");
            },
            PirType::I1 => {
                self.out.append("  ret i1 0\n");
            },
            PirType::I8 => {
                self.out.append("  ret i8 0\n");
            },
            PirType::I32 => {
                self.out.append("  ret i32 0\n");
            },
            PirType::I64 => {
                self.out.append("  ret i64 0\n");
            },
            PirType::F64 => {
                self.out.append("  ret double 0.0\n");
            },
            PirType::Ptr(_) => {
                let tn = f.ret_ty.llvm();
                self.out.append("  ret ");
                self.out.append(tn.as_str());
                self.out.append(" null\n");
            },
        }
        self.out.append("}\n\n");
        Ok(())
    }

    /// Emits the declarations.
    fn emit_externs(&mut self, es: &Vec<PirExtern>)
        ensures
            final(self)@ == old(self)@.with(
                externs_text(old(self)@.out, externs_of(es@), es@.len()),
            ),
    {
        reveal(externs_text);
        let mut k: usize = 0;
        while k < es.len()
            invariant
                k <= es@.len(),
                self@ == old(self)@.with(externs_text(old(self)@.out, externs_of(es@), k as nat)),
            decreases es@.len() - k,
        {
            reveal(externs_text);
            let ret = es[k].ret_ty.llvm();
            let name = sanitize_symbol(es[k].name.as_str());
            let args = type_text(&es[k].params);
            self.out.append("declare ");
            self.out.append(ret.as_str());
            self.out.append(" @");
            self.out.append(name.as_str());
            self.out.append("(");
            self.out.append(args.as_str());
            self.out.append(")\n");
            k = k + 1;
        }
    }

    /// Emits the interrupt records.
    fn emit_isr_entries(&mut self, es: &Vec<IsrEntry>)
        ensures
            final(self)@ == old(self)@.with(isrs_text(old(self)@.out, isrs_of(es@), es@.len())),
    {
        reveal(isrs_text);
        let mut k: usize = 0;
        while k < es.len()
            invariant
                k <= es@.len(),
                self@ == old(self)@.with(isrs_text(old(self)@.out, isrs_of(es@), k as nat)),
            decreases es@.len() - k,
        {
            reveal(isrs_text);
            let h = sanitize_symbol(es[k].handler.as_str());
            self.out.append("@__cstar_isr_");
            self.out.append(h.as_str());
            self.out.append(" = global { i8*, i64, i64, i64 } { i8* bitcast (void ()* @");
            self.out.append(h.as_str());
            self.out.append(" to i8*), i64 ");
            push_int(&mut self.out, es[k].priority);
            self.out.append(", i64 ");
            push_int(&mut self.out, es[k].budget_us);
            self.out.append(", i64 ");
            push_dec(&mut self.out, es[k].wcet_cycles);
            self.out.append(" }, section \".isr\", align 8\n");
            k = k + 1;
        }
    }

    /// Emits the package records.
    fn emit_package_entries(&mut self, es: &Vec<PackageEntry>)
        ensures
            final(self)@ == old(self)@.with(
                packages_text(old(self)@.out, packages_of(es@), es@.len()),
            ),
    {
        reveal(packages_text);
        let mut k: usize = 0;
        while k < es.len()
            invariant
                k <= es@.len(),
                self@ == old(self)@.with(packages_text(old(self)@.out, packages_of(es@), k as nat)),
            decreases es@.len() - k,
        {
            reveal(packages_text);
            let name = sanitize_symbol(es[k].name.as_str());
            self.out.append("@__cstar_pkg_");
            self.out.append(name.as_str());
            self.out.append(" = constant { i64, i64, i64 } { i64 ");
            push_dec(&mut self.out, es[k].offset);
            self.out.append(", i64 ");
            push_dec(&mut self.out, es[k].size);
            self.out.append(", i64 ");
            push_dec(&mut self.out, es[k].checksum);
            self.out.append(" }, section \".pkgmeta\", align 8 ; ");
            self.out.append(es[k].name.as_str());
            self.out.append(":");
            self.out.append(es[k].partition.as_str());
            self.out.append("\n");
            k = k + 1;
        }
    }

    /// Emits the patch records.
    fn emit_patch_entries(&mut self, es: &Vec<PatchPlan>)
        ensures
            final(self)@ == old(self)@.with(patches_text(old(self)@.out, patches_of(es@), es@.len())),
    {
        reveal(patches_text);
        let mut k: usize = 0;
        while k < es.len()
            invariant
                k <= es@.len(),
                self@ == old(self)@.with(patches_text(old(self)@.out, patches_of(es@), k as nat)),
            decreases es@.len() - k,
        {
            reveal(patches_text);
            let name = sanitize_symbol(es[k].function.as_str());
            let a: u64 = stable_hash(es[k].base.as_str());
            let b: u64 = stable_hash(es[k].output.as_str());
            self.out.append("@__cstar_patch_");
            self.out.append(name.as_str());
            self.out.append(" = constant { i64, i64 } { i64 ");
            push_dec(&mut self.out, a);
            self.out.append(", i64 ");
            push_dec(&mut self.out, b);
            self.out.append(" }, section \".patchmeta\", align 8 ; base=");
            self.out.append(es[k].base.as_str());
            self.out.append(" output=");
            self.out.append(es[k].output.as_str());
            self.out.append("\n");
            k = k + 1;
        }
    }

    /// Emits what stands in front of the functions.
    fn emit_records(&mut self, p: &PirProgram)
        requires
            old(self)@.out.len() == 0,
        ensures
            final(self)@ == old(self)@.with(records_text(p@)),
    {
        reveal(records_text);
        assert(self.out@ =~= Seq::<char>::empty());
        self.out.append(
            "; Vredrs C* raw backend LLVM IR - phase 3\n; No interpreter Value, GC, coroutine scheduler or refcount runtime is linked.\ntarget triple = \"x86_64-unknown-linux-gnu\"\n\ndeclare i8* @malloc(i64)\ndeclare void @free(i8*)\ndeclare void @llvm.prefetch.p0i8(i8*, i32, i32, i32)\n",
        );
        self.emit_externs(&p.externs);
        if p.externs.len() > 0 {
            self.out.append("\n");
        }
        self.emit_isr_entries(&p.isr_entries);
        self.emit_package_entries(&p.packages);
        self.emit_patch_entries(&p.patch_plans);
        if p.isr_entries.len() > 0 || p.packages.len() > 0 || p.patch_plans.len() > 0 {
            self.out.append("\n");
        }
    }

    /// Emits the module of a program.
    pub fn emit(self, p: &PirProgram) -> (r: Result<String, CompilerError>)
        requires
            self@ == (Ir { out: Seq::empty(), names: Map::empty(), slots: Map::empty(), tmp: 0 }),
        ensures
            text_outcome(r) == module_text(p@),
    {
        let mut e = self;
        e.emit_records(p);
        let ghost start = e@;
        let ghost fs = functions_of(p.functions@);
        let mut i: usize = 0;
        while i < p.functions.len()
            invariant
                i <= p.functions@.len(),
                fs == functions_of(p.functions@),
                start == (Ir {
                    out: records_text(p@),
                    names: Map::empty(),
                    slots: Map::empty(),
                    tmp: 0,
                }),
                emit_functions(start, fs, 0) == emit_functions(e@, fs, i as int),
            decreases p.functions@.len() - i,
        {
            assert(fs[i as int] == p.functions@[i as int]@);
            match e.emit_function(&p.functions[i]) {
                Ok(_) => {},
                Err(m) => {
                    return Err(m);
                },
            }
            i = i + 1;
        }
        if p.nodes.len() > 0 {
            e.out.append("define i32 @main() {\nentry:\n");
            match e.emit_list(&p.nodes) {
                Ok(_) => {},
                Err(m) => {
                    return Err(m);
                },
            }
            e.out.append("  ret i32 0\n}\n");
        }
        Ok(e.out)
    }
}

/// The name of the pointer to a type.
fn pointer_name(ty: &PirType) -> (r: String)
    ensures
        r@ == llvm_name(ptr_to(*ty)),
{
    let pt = PirType::Ptr(Box::new(ty.copy()));
    pt.llvm()
}

/// The word for a volatile access.
fn volatile_text(v: bool) -> (r: &'static str)
    ensures
        r@ == volatile_word(v),
{
    if v {
        " volatile"
    } else {
        ""
    }
}

/// The constraints of an inline assembly block.
fn constraint_text(outputs: &Vec<String>, n: usize) -> (r: String)
    ensures
        r@ == joined(constraints(texts(outputs@), n as nat), ","@),
{
    let mut list = TextList::new();
    let mut i: usize = 0;
    while i < outputs.len()
        invariant
            i <= outputs@.len(),
            list@ == texts(outputs@).take(i as int),
        decreases outputs@.len() - i,
    {
        list.push(outputs[i].clone());
        i = i + 1;
        assert(list@ =~= texts(outputs@).take(i as int));
    }
    assert(list@ =~= texts(outputs@));
    let mut j: usize = 0;
    assert(list@ =~= constraints(texts(outputs@), 0));
    while j < n
        invariant
            j <= n,
            list@ == constraints(texts(outputs@), j as nat),
        decreases n - j,
    {
        list.push(text("r"));
        j = j + 1;
        assert(list@ =~= constraints(texts(outputs@), j as nat));
    }
    list.join(",")
}

/// Parameters with their types.
fn param_text(ps: &Vec<(String, PirType)>) -> (r: String)
    ensures
        r@ == joined(param_list(params_of(ps@)), ", "@),
{
    let mut list = TextList::new();
    let mut i: usize = 0;
    while i < ps.len()
        invariant
            i <= ps@.len(),
            list@ == param_list(params_of(ps@)).take(i as int),
        decreases ps@.len() - i,
    {
        let mut s = ps[i].1.llvm();
        let n = sanitize_symbol(ps[i].0.as_str());
        s.append(" %");
        s.append(n.as_str());
        list.push(s);
        i = i + 1;
        assert(list@ =~= param_list(params_of(ps@)).take(i as int));
    }
    assert(list@ =~= param_list(params_of(ps@)));
    list.join(", ")
}

/// Types with commas between them.
fn type_text(ts: &Vec<PirType>) -> (r: String)
    ensures
        r@ == joined(type_list(ts@), ", "@),
{
    let mut list = TextList::new();
    let mut i: usize = 0;
    while i < ts.len()
        invariant
            i <= ts@.len(),
            list@ == type_list(ts@).take(i as int),
        decreases ts@.len() - i,
    {
        list.push(ts[i].llvm());
        i = i + 1;
        assert(list@ =~= type_list(ts@).take(i as int));
    }
    assert(list@ =~= type_list(ts@));
    list.join(", ")
}

} // verus!
