//! Static code needs no dynamic values.
//!
//! A module in which every type is known is emitted without the type
//! `%vredrs_value` and without calls of the runtime functions on it.

use vstd::prelude::*;
use crate::emit_llvm::{
    access_type, alloc_slots, array_type, branch_type, branched, called_runtime, clean_name,
    compared, constant_text, constraint_list, constraint_string, declared, emit_alloca, emit_asm,
    emit_binary, emit_body, emit_branch, emit_branch_true, emit_call, emit_compare, emit_fn,
    emit_fns, emit_memory_load, emit_memory_store, emit_neg, emit_not, emit_note, emit_one,
    emit_ret, emit_strings, end_value, float_insn, fn_regs, fresh_ll, function_end, function_start,
    int_insn, Ll, load, loads, module_calls, module_ok, module_start, module_state, next_label,
    param_position, param_texts, params_match, plain_operands, predicate, runtime_calls, slot_type,
    store, store_params, string_name, template_escaped, typed_args, value_name, value_type,
};
use crate::ir::{BinOp, Cond, Insn, IrFn, IrMod, Opnd, TypeHint};
use crate::text::{at, byte_len, dec, hex, int_dec, joined, occurs};

verus! {

// ---------------------------------------------------------------------------
// Static modules
// ---------------------------------------------------------------------------

/// The type is known.
pub open spec fn static_type(t: TypeHint) -> bool {
    t != TypeHint::Dynamic && t != TypeHint::Mixed
}

/// The text does not mention dynamic values.
#[verifier::opaque]
pub open spec fn wordless(t: Seq<char>) -> bool {
    !occurs(t, "vredrs_value"@)
}

/// The operand has a known type, and its name does not mention dynamic values.
pub open spec fn static_operand(o: Opnd) -> bool {
    &&& static_type(o.hint())
    &&& o matches Opnd::Label(l) ==> wordless(clean_name(l))
    &&& o matches Opnd::Sym(s) ==> wordless(s)
}

/// The operands are static.
pub open spec fn static_operands(os: Seq<Opnd>) -> bool {
    forall|i: int| 0 <= i < os.len() ==> static_operand(#[trigger] os[i])
}

/// The assembly operands are static, and their constraints do not mention
/// dynamic values.
pub open spec fn static_asm_operands(os: Seq<(Seq<char>, Opnd)>) -> bool {
    forall|i: int|
        0 <= i < os.len() ==> static_operand((#[trigger] os[i]).1) && wordless(os[i].0)
}

/// The instruction works on known types, and the names and texts that it puts
/// into the output do not mention dynamic values.
pub open spec fn static_insn(n: Insn) -> bool {
    match n {
        Insn::Label(l) => wordless(clean_name(l)),
        Insn::Comment(c) => wordless(c),
        Insn::SrcLoc { line, col } => true,
        Insn::Mov { dst, src, ty } => static_operand(src) && static_type(ty),
        Insn::Bin { op, dst, lhs, rhs, ty } => !op.dynamic() && static_operand(lhs)
            && static_operand(rhs),
        Insn::Neg { dst, src, ty } => static_operand(src) && static_type(ty),
        Insn::Not { dst, src, ty } => static_operand(src),
        Insn::Cmp { dst, cond, lhs, rhs, ty } => static_operand(lhs) && static_operand(rhs),
        Insn::Branch { cond, lhs, rhs, target } => static_operand(lhs) && static_operand(rhs)
            && wordless(clean_name(target)),
        Insn::BranchTrue { cond, target } => static_operand(cond) && wordless(clean_name(target)),
        Insn::Jump { target } => wordless(clean_name(target)),
        Insn::Load { dst, addr, size, ty } => static_operand(addr) && static_type(ty),
        Insn::Store { addr, value, size, ty } => static_operand(addr) && static_operand(value)
            && static_type(ty),
        Insn::Alloca { dst, size, align } => static_operand(size),
        Insn::StackFree { ptr, size } => static_operand(ptr),
        Insn::Call { dst, func, args, ty } => static_operands(args) && static_type(ty) && wordless(
            func,
        ),
        Insn::Ret { value } => value matches Some(o) ==> static_operand(o),
        Insn::Push { src } => static_operand(src),
        Insn::Asm { template, inputs, outputs, clobbers } => static_asm_operands(inputs)
            && static_asm_operands(outputs) && wordless(template_escaped(template)),
        Insn::Prefetch { addr, hint } => static_operand(addr),
        Insn::PipelineMarker { name } => wordless(name),
        Insn::IsrEntry { group, priority } => wordless(group),
        Insn::WcetNote { cycles, budget } => true,
        Insn::DiffMeta { symbol, offset } => wordless(symbol),
        _ => false,
    }
}

/// The function works on known types.
pub open spec fn static_fn(f: IrFn) -> bool {
    &&& wordless(f.name)
    &&& static_type(f.return_ty)
    &&& forall|i: int| 0 <= i < f.params.len() ==> static_type((#[trigger] f.params[i]).1)
    &&& forall|i: int|
        0 <= i < f.param_regs.len() ==> wordless(clean_name(#[trigger] f.param_regs[i]))
    &&& forall|i: int| 0 <= i < f.body.len() ==> static_insn(#[trigger] f.body[i])
}

/// The module works on known types.
pub open spec fn static_module(m: IrMod) -> bool {
    &&& forall|i: int| 0 <= i < m.functions.len() ==> static_fn(#[trigger] m.functions[i])
    &&& forall|i: int|
        0 <= i < m.string_pool.len() ==> wordless(constant_text(#[trigger] m.string_pool[i]))
}

// ---------------------------------------------------------------------------
// Joining texts
// ---------------------------------------------------------------------------

/// The character does not occur in `vredrs_value`.
spec fn outside_word(c: char) -> bool {
    c != 'v' && c != 'r' && c != 'e' && c != 'd' && c != 's' && c != '_' && c != 'a' && c != 'l'
        && c != 'u'
}

/// The text does not mention dynamic values, and no mention begins at its end.
#[verifier::opaque]
spec fn closed_text(t: Seq<char>) -> bool {
    wordless(t) && (t.len() > 0 ==> outside_word(t.last()))
}

/// The text does not mention dynamic values, and no mention begins or ends in
/// it.
#[verifier::opaque]
spec fn bounded(t: Seq<char>) -> bool {
    wordless(t) && t.len() > 0 && outside_word(t[0]) && outside_word(t.last())
}

/// Texts can be joined where a character that the word lacks stands between
/// them.
proof fn lemma_join(a: Seq<char>, b: Seq<char>)
    requires
        wordless(a),
        wordless(b),
        a.len() > 0 && b.len() > 0 ==> outside_word(a.last()) || outside_word(b[0]),
    ensures
        wordless(a + b),
{
    reveal(wordless);
    reveal_strlit("vredrs_value");
    let w = "vredrs_value"@;
    let t = a + b;
    assert forall|i: int| !at(t, w, i) by {
        if at(t, w, i) {
            let s = t.subrange(i, i + w.len());
            assert(forall|k: int| 0 <= k < 12 ==> s[k] == t[i + k]);
            if i + w.len() <= a.len() {
                assert(a.subrange(i, i + w.len()) =~= w);
                assert(at(a, w, i));
            } else if i >= a.len() {
                let j = i - a.len();
                assert(b.subrange(j, j + w.len()) =~= w);
                assert(at(b, w, j));
            } else {
                let k = a.len() - i;
                assert(0 < k < 12);
                assert(t[a.len() - 1] == w[k - 1]);
                assert(t[a.len() as int] == w[k]);
                assert(!outside_word(w[k - 1]) && !outside_word(w[k]));
            }
        }
    }
}

/// A short text does not hold the word.
proof fn lemma_short(t: Seq<char>)
    requires
        t.len() < 12,
    ensures
        wordless(t),
{
    reveal(wordless);
    reveal_strlit("vredrs_value");
}

/// A text without `v` does not hold the word.
proof fn lemma_no_v(t: Seq<char>)
    requires
        forall|i: int| 0 <= i < t.len() ==> t[i] != 'v',
    ensures
        wordless(t),
{
    reveal(wordless);
    reveal_strlit("vredrs_value");
    let w = "vredrs_value"@;
    assert forall|i: int| !at(t, w, i) by {
        if at(t, w, i) {
            assert(t.subrange(i, i + w.len())[0] == t[i]);
        }
    }
}

/// No `v` stands before an `r` in the first `k` characters.
spec fn no_vr(t: Seq<char>, k: int) -> bool
    decreases k,
{
    k <= 1 || (!(t[k - 2] == 'v' && t[k - 1] == 'r') && no_vr(t, k - 1))
}

/// What `no_vr` says of each position.
proof fn lemma_no_vr_at(t: Seq<char>, k: int, i: int)
    requires
        no_vr(t, k),
        0 <= i < k - 1,
    ensures
        !(t[i] == 'v' && t[i + 1] == 'r'),
    decreases k,
{
    if i < k - 2 {
        lemma_no_vr_at(t, k - 1, i);
    }
}

/// A text without `vr` does not hold the word.
proof fn lemma_no_vr(t: Seq<char>)
    requires
        no_vr(t, t.len() as int),
    ensures
        wordless(t),
{
    reveal(wordless);
    reveal_strlit("vredrs_value");
    let w = "vredrs_value"@;
    assert forall|i: int| !at(t, w, i) by {
        if at(t, w, i) {
            let s = t.subrange(i, i + w.len());
            assert(s[0] == t[i] && s[1] == t[i + 1]);
            lemma_no_vr_at(t, t.len() as int, i);
        }
    }
}

/// A bounded literal can be added to a closed text.
proof fn lemma_literal(t: Seq<char>, l: Seq<char>)
    requires
        closed_text(t),
        bounded(l),
    ensures
        closed_text(t + l),
{
    reveal(closed_text);
    reveal(bounded);
    lemma_join(t, l);
    assert((t + l).last() == l.last());
}

/// A text that does not hold the word can be added between a closed text and a
/// bounded literal.
proof fn lemma_word(t: Seq<char>, u: Seq<char>, l: Seq<char>)
    requires
        closed_text(t),
        wordless(u),
        bounded(l),
    ensures
        closed_text(t + u + l),
{
    reveal(closed_text);
    reveal(bounded);
    lemma_join(t, u);
    lemma_join(t + u, l);
    assert((t + u + l).last() == l.last());
}

/// A bounded literal in front of a text that does not hold the word.
proof fn lemma_prefixed(l: Seq<char>, u: Seq<char>)
    requires
        bounded(l),
        wordless(u),
    ensures
        wordless(l + u),
{
    reveal(bounded);
    lemma_join(l, u);
}

/// A bounded literal between two texts that do not hold the word.
proof fn lemma_between(u: Seq<char>, l: Seq<char>, v: Seq<char>)
    requires
        wordless(u),
        bounded(l),
        wordless(v),
    ensures
        wordless(u + l + v),
{
    reveal(bounded);
    lemma_join(u, l);
    assert((u + l).last() == l.last());
    lemma_join(u + l, v);
}

/// Bounded literals are texts that do not hold the word.
proof fn lemma_bounded(l: Seq<char>)
    requires
        bounded(l),
    ensures
        wordless(l),
        closed_text(l),
{
    reveal(bounded);
    reveal(closed_text);
}

/// Joined texts do not hold the word.
proof fn lemma_joined(parts: Seq<Seq<char>>, sep: Seq<char>)
    requires
        forall|i: int| 0 <= i < parts.len() ==> wordless(#[trigger] parts[i]),
        bounded(sep),
    ensures
        wordless(joined(parts, sep)),
    decreases parts.len(),
{
    if parts.len() == 0 {
        lemma_short(Seq::empty());
    } else if parts.len() > 1 {
        lemma_joined(parts.drop_last(), sep);
        lemma_between(joined(parts.drop_last(), sep), sep, parts.last());
    }
}

/// Literals of the emitter.
proof fn lemma_literals_1()
    ensures
        bounded("  "@),
        bounded(" = load "@),
        bounded(", "@),
        bounded("* "@),
        bounded("\n"@),
        bounded(" = getelementptr "@),
        bounded(", i32 0, i32 0\n"@),
        bounded("  store "@),
        bounded(" "@),
        bounded(" = "@),
        bounded(" double "@),
        bounded(" i64 "@),
{
    assert(bounded("  "@)) by {
        reveal(bounded);
        reveal_strlit("  ");
        lemma_short("  "@);
    }
    assert(bounded(" = load "@)) by {
        reveal(bounded);
        reveal_strlit(" = load ");
        lemma_short(" = load "@);
    }
    assert(bounded(", "@)) by {
        reveal(bounded);
        reveal_strlit(", ");
        lemma_short(", "@);
    }
    assert(bounded("* "@)) by {
        reveal(bounded);
        reveal_strlit("* ");
        lemma_short("* "@);
    }
    assert(bounded("\n"@)) by {
        reveal(bounded);
        reveal_strlit("\n");
        lemma_short("\n"@);
    }
    assert(bounded(" = getelementptr "@)) by {
        reveal(bounded);
        reveal_strlit(" = getelementptr ");
        reveal_with_fuel(no_vr, 19);
        lemma_no_vr(" = getelementptr "@);
    }
    assert(bounded(", i32 0, i32 0\n"@)) by {
        reveal(bounded);
        reveal_strlit(", i32 0, i32 0\n");
        reveal_with_fuel(no_vr, 17);
        lemma_no_vr(", i32 0, i32 0\n"@);
    }
    assert(bounded("  store "@)) by {
        reveal(bounded);
        reveal_strlit("  store ");
        lemma_short("  store "@);
    }
    assert(bounded(" "@)) by {
        reveal(bounded);
        reveal_strlit(" ");
        lemma_short(" "@);
    }
    assert(bounded(" = "@)) by {
        reveal(bounded);
        reveal_strlit(" = ");
        lemma_short(" = "@);
    }
    assert(bounded(" double "@)) by {
        reveal(bounded);
        reveal_strlit(" double ");
        lemma_short(" double "@);
    }
    assert(bounded(" i64 "@)) by {
        reveal(bounded);
        reveal_strlit(" i64 ");
        lemma_short(" i64 "@);
    }
}

/// Literals of the emitter.
proof fn lemma_literals_2()
    ensures
        bounded(" = fneg double "@),
        bounded(" = sub i64 0, "@),
        bounded(" = xor i64 "@),
        bounded(", 1\n"@),
        bounded(" = fcmp "@),
        bounded(" = icmp "@),
        bounded("  br i1 "@),
        bounded(", label %"@),
        bounded(":\n"@),
        bounded(" = zext i1 "@),
        bounded(" to i64\n"@),
        bounded(" = alloca i8, i64 "@),
{
    assert(bounded(" = fneg double "@)) by {
        reveal(bounded);
        reveal_strlit(" = fneg double ");
        reveal_with_fuel(no_vr, 17);
        lemma_no_vr(" = fneg double "@);
    }
    assert(bounded(" = sub i64 0, "@)) by {
        reveal(bounded);
        reveal_strlit(" = sub i64 0, ");
        reveal_with_fuel(no_vr, 16);
        lemma_no_vr(" = sub i64 0, "@);
    }
    assert(bounded(" = xor i64 "@)) by {
        reveal(bounded);
        reveal_strlit(" = xor i64 ");
        lemma_short(" = xor i64 "@);
    }
    assert(bounded(", 1\n"@)) by {
        reveal(bounded);
        reveal_strlit(", 1\n");
        lemma_short(", 1\n"@);
    }
    assert(bounded(" = fcmp "@)) by {
        reveal(bounded);
        reveal_strlit(" = fcmp ");
        lemma_short(" = fcmp "@);
    }
    assert(bounded(" = icmp "@)) by {
        reveal(bounded);
        reveal_strlit(" = icmp ");
        lemma_short(" = icmp "@);
    }
    assert(bounded("  br i1 "@)) by {
        reveal(bounded);
        reveal_strlit("  br i1 ");
        lemma_short("  br i1 "@);
    }
    assert(bounded(", label %"@)) by {
        reveal(bounded);
        reveal_strlit(", label %");
        lemma_short(", label %"@);
    }
    assert(bounded(":\n"@)) by {
        reveal(bounded);
        reveal_strlit(":\n");
        lemma_short(":\n"@);
    }
    assert(bounded(" = zext i1 "@)) by {
        reveal(bounded);
        reveal_strlit(" = zext i1 ");
        lemma_short(" = zext i1 "@);
    }
    assert(bounded(" to i64\n"@)) by {
        reveal(bounded);
        reveal_strlit(" to i64\n");
        lemma_short(" to i64\n"@);
    }
    assert(bounded(" = alloca i8, i64 "@)) by {
        reveal(bounded);
        reveal_strlit(" = alloca i8, i64 ");
        reveal_with_fuel(no_vr, 20);
        lemma_no_vr(" = alloca i8, i64 "@);
    }
}

/// Literals of the emitter.
proof fn lemma_literals_3()
    ensures
        bounded(" = call "@),
        bounded(" @"@),
        bounded("("@),
        bounded(")\n"@),
        bounded("  call void @"@),
        bounded("  ret "@),
        bounded("  ret void\n"@),
        bounded("  call void asm sideeffect \""@),
        bounded("\", \""@),
        bounded("\"("@),
        bounded("; label "@),
        bounded("  ; "@),
{
    assert(bounded(" = call "@)) by {
        reveal(bounded);
        reveal_strlit(" = call ");
        lemma_short(" = call "@);
    }
    assert(bounded(" @"@)) by {
        reveal(bounded);
        reveal_strlit(" @");
        lemma_short(" @"@);
    }
    assert(bounded("("@)) by {
        reveal(bounded);
        reveal_strlit("(");
        lemma_short("("@);
    }
    assert(bounded(")\n"@)) by {
        reveal(bounded);
        reveal_strlit(")\n");
        lemma_short(")\n"@);
    }
    assert(bounded("  call void @"@)) by {
        reveal(bounded);
        reveal_strlit("  call void @");
        reveal_with_fuel(no_vr, 15);
        lemma_no_vr("  call void @"@);
    }
    assert(bounded("  ret "@)) by {
        reveal(bounded);
        reveal_strlit("  ret ");
        lemma_short("  ret "@);
    }
    assert(bounded("  ret void\n"@)) by {
        reveal(bounded);
        reveal_strlit("  ret void\n");
        lemma_short("  ret void\n"@);
    }
    assert(bounded("  call void asm sideeffect \""@)) by {
        reveal(bounded);
        reveal_strlit("  call void asm sideeffect \"");
        reveal_with_fuel(no_vr, 30);
        lemma_no_vr("  call void asm sideeffect \""@);
    }
    assert(bounded("\", \""@)) by {
        reveal(bounded);
        reveal_strlit("\", \"");
        lemma_short("\", \""@);
    }
    assert(bounded("\"("@)) by {
        reveal(bounded);
        reveal_strlit("\"(");
        lemma_short("\"("@);
    }
    assert(bounded("; label "@)) by {
        reveal(bounded);
        reveal_strlit("; label ");
        lemma_short("; label "@);
    }
    assert(bounded("  ; "@)) by {
        reveal(bounded);
        reveal_strlit("  ; ");
        lemma_short("  ; "@);
    }
}

/// Literals of the emitter.
proof fn lemma_literals_4()
    ensures
        bounded("  ; srcloc "@),
        bounded(":"@),
        bounded("  br label %"@),
        bounded("  ; @pipeline "@),
        bounded("  ; @isr_group "@),
        bounded(" prio="@),
        bounded("  ; wcet cycles="@),
        bounded(" budget="@),
        bounded("  ; diffmeta "@),
        bounded(" +0x"@),
        bounded("  ; push "@),
        bounded("  call void @llvm.lifetime.end.p0i8(i64 -1, i8* "@),
{
    assert(bounded("  ; srcloc "@)) by {
        reveal(bounded);
        reveal_strlit("  ; srcloc ");
        lemma_short("  ; srcloc "@);
    }
    assert(bounded(":"@)) by {
        reveal(bounded);
        reveal_strlit(":");
        lemma_short(":"@);
    }
    assert(bounded("  br label %"@)) by {
        reveal(bounded);
        reveal_strlit("  br label %");
        reveal_with_fuel(no_vr, 14);
        lemma_no_vr("  br label %"@);
    }
    assert(bounded("  ; @pipeline "@)) by {
        reveal(bounded);
        reveal_strlit("  ; @pipeline ");
        reveal_with_fuel(no_vr, 16);
        lemma_no_vr("  ; @pipeline "@);
    }
    assert(bounded("  ; @isr_group "@)) by {
        reveal(bounded);
        reveal_strlit("  ; @isr_group ");
        reveal_with_fuel(no_vr, 17);
        lemma_no_vr("  ; @isr_group "@);
    }
    assert(bounded(" prio="@)) by {
        reveal(bounded);
        reveal_strlit(" prio=");
        lemma_short(" prio="@);
    }
    assert(bounded("  ; wcet cycles="@)) by {
        reveal(bounded);
        reveal_strlit("  ; wcet cycles=");
        reveal_with_fuel(no_vr, 18);
        lemma_no_vr("  ; wcet cycles="@);
    }
    assert(bounded(" budget="@)) by {
        reveal(bounded);
        reveal_strlit(" budget=");
        lemma_short(" budget="@);
    }
    assert(bounded("  ; diffmeta "@)) by {
        reveal(bounded);
        reveal_strlit("  ; diffmeta ");
        reveal_with_fuel(no_vr, 15);
        lemma_no_vr("  ; diffmeta "@);
    }
    assert(bounded(" +0x"@)) by {
        reveal(bounded);
        reveal_strlit(" +0x");
        lemma_short(" +0x"@);
    }
    assert(bounded("  ; push "@)) by {
        reveal(bounded);
        reveal_strlit("  ; push ");
        lemma_short("  ; push "@);
    }
    assert(bounded("  call void @llvm.lifetime.end.p0i8(i64 -1, i8* "@)) by {
        reveal(bounded);
        reveal_strlit("  call void @llvm.lifetime.end.p0i8(i64 -1, i8* ");
        reveal_with_fuel(no_vr, 50);
        lemma_no_vr("  call void @llvm.lifetime.end.p0i8(i64 -1, i8* "@);
    }
}

/// Literals of the emitter.
proof fn lemma_literals_5()
    ensures
        bounded("  call void @llvm.prefetch.p0i8(i8* "@),
        bounded(", i32 0, i32 3, i32 1)\n"@),
        bounded(" = alloca "@),
        bounded(", align 8\n"@),
        bounded(" %"@),
        bounded("\ndefine "@),
        bounded(") {\nentry:\n"@),
        bounded(" = private unnamed_addr constant "@),
        bounded(" c\""@),
        bounded("\\00\"\n"@),
        bounded("; Vredrs LLVM IR (gradual: static + dynamic)\n"@),
        bounded("%"@),
{
    assert(bounded("  call void @llvm.prefetch.p0i8(i8* "@)) by {
        reveal(bounded);
        reveal_strlit("  call void @llvm.prefetch.p0i8(i8* ");
        reveal_with_fuel(no_vr, 38);
        lemma_no_vr("  call void @llvm.prefetch.p0i8(i8* "@);
    }
    assert(bounded(", i32 0, i32 3, i32 1)\n"@)) by {
        reveal(bounded);
        reveal_strlit(", i32 0, i32 3, i32 1)\n");
        reveal_with_fuel(no_vr, 25);
        lemma_no_vr(", i32 0, i32 3, i32 1)\n"@);
    }
    assert(bounded(" = alloca "@)) by {
        reveal(bounded);
        reveal_strlit(" = alloca ");
        lemma_short(" = alloca "@);
    }
    assert(bounded(", align 8\n"@)) by {
        reveal(bounded);
        reveal_strlit(", align 8\n");
        lemma_short(", align 8\n"@);
    }
    assert(bounded(" %"@)) by {
        reveal(bounded);
        reveal_strlit(" %");
        lemma_short(" %"@);
    }
    assert(bounded("\ndefine "@)) by {
        reveal(bounded);
        reveal_strlit("\ndefine ");
        lemma_short("\ndefine "@);
    }
    assert(bounded(") {\nentry:\n"@)) by {
        reveal(bounded);
        reveal_strlit(") {\nentry:\n");
        lemma_short(") {\nentry:\n"@);
    }
    assert(bounded(" = private unnamed_addr constant "@)) by {
        reveal(bounded);
        reveal_strlit(" = private unnamed_addr constant ");
        reveal_with_fuel(no_vr, 35);
        lemma_no_vr(" = private unnamed_addr constant "@);
    }
    assert(bounded(" c\""@)) by {
        reveal(bounded);
        reveal_strlit(" c\"");
        lemma_short(" c\""@);
    }
    assert(bounded("\\00\"\n"@)) by {
        reveal(bounded);
        reveal_strlit("\\00\"\n");
        lemma_short("\\00\"\n"@);
    }
    assert(bounded("; Vredrs LLVM IR (gradual: static + dynamic)\n"@)) by {
        reveal(bounded);
        reveal_strlit("; Vredrs LLVM IR (gradual: static + dynamic)\n");
        reveal_with_fuel(no_vr, 47);
        lemma_no_vr("; Vredrs LLVM IR (gradual: static + dynamic)\n"@);
    }
    assert(bounded("%"@)) by {
        reveal(bounded);
        reveal_strlit("%");
        lemma_short("%"@);
    }
}

/// Literals of the emitter.
proof fn lemma_literals_6()
    ensures
        bounded("blockaddress(@main, %"@),
        bounded("bitcast (i64* @"@),
        bounded(" to i8*)"@),
        bounded(")"@),
        bounded(","@),
        bounded("="@),
        bounded("}\n"@),
{
    assert(bounded("blockaddress(@main, %"@)) by {
        reveal(bounded);
        reveal_strlit("blockaddress(@main, %");
        reveal_with_fuel(no_vr, 23);
        lemma_no_vr("blockaddress(@main, %"@);
    }
    assert(bounded("bitcast (i64* @"@)) by {
        reveal(bounded);
        reveal_strlit("bitcast (i64* @");
        reveal_with_fuel(no_vr, 17);
        lemma_no_vr("bitcast (i64* @"@);
    }
    assert(bounded(" to i8*)"@)) by {
        reveal(bounded);
        reveal_strlit(" to i8*)");
        lemma_short(" to i8*)"@);
    }
    assert(bounded(")"@)) by {
        reveal(bounded);
        reveal_strlit(")");
        lemma_short(")"@);
    }
    assert(bounded(","@)) by {
        reveal(bounded);
        reveal_strlit(",");
        lemma_short(","@);
    }
    assert(bounded("="@)) by {
        reveal(bounded);
        reveal_strlit("=");
        lemma_short("="@);
    }
    assert(bounded("}\n"@)) by {
        reveal(bounded);
        reveal_strlit("}\n");
        lemma_short("}\n"@);
    }
}

/// The literals of the emitter are bounded.
proof fn lemma_literals()
    ensures
        bounded("  "@),
        bounded(" = load "@),
        bounded(", "@),
        bounded("* "@),
        bounded("\n"@),
        bounded(" = getelementptr "@),
        bounded(", i32 0, i32 0\n"@),
        bounded("  store "@),
        bounded(" "@),
        bounded(" = "@),
        bounded(" double "@),
        bounded(" i64 "@),
        bounded(" = fneg double "@),
        bounded(" = sub i64 0, "@),
        bounded(" = xor i64 "@),
        bounded(", 1\n"@),
        bounded(" = fcmp "@),
        bounded(" = icmp "@),
        bounded("  br i1 "@),
        bounded(", label %"@),
        bounded(":\n"@),
        bounded(" = zext i1 "@),
        bounded(" to i64\n"@),
        bounded(" = alloca i8, i64 "@),
        bounded(" = call "@),
        bounded(" @"@),
        bounded("("@),
        bounded(")\n"@),
        bounded("  call void @"@),
        bounded("  ret "@),
        bounded("  ret void\n"@),
        bounded("  call void asm sideeffect \""@),
        bounded("\", \""@),
        bounded("\"("@),
        bounded("; label "@),
        bounded("  ; "@),
        bounded("  ; srcloc "@),
        bounded(":"@),
        bounded("  br label %"@),
        bounded("  ; @pipeline "@),
        bounded("  ; @isr_group "@),
        bounded(" prio="@),
        bounded("  ; wcet cycles="@),
        bounded(" budget="@),
        bounded("  ; diffmeta "@),
        bounded(" +0x"@),
        bounded("  ; push "@),
        bounded("  call void @llvm.lifetime.end.p0i8(i64 -1, i8* "@),
        bounded("  call void @llvm.prefetch.p0i8(i8* "@),
        bounded(", i32 0, i32 3, i32 1)\n"@),
        bounded(" = alloca "@),
        bounded(", align 8\n"@),
        bounded(" %"@),
        bounded("\ndefine "@),
        bounded(") {\nentry:\n"@),
        bounded(" = private unnamed_addr constant "@),
        bounded(" c\""@),
        bounded("\\00\"\n"@),
        bounded("; Vredrs LLVM IR (gradual: static + dynamic)\n"@),
        bounded("%"@),
        bounded("blockaddress(@main, %"@),
        bounded("bitcast (i64* @"@),
        bounded(" to i8*)"@),
        bounded(")"@),
        bounded(","@),
        bounded("="@),
        bounded("}\n"@),
{
    lemma_literals_1();
    lemma_literals_2();
    lemma_literals_3();
    lemma_literals_4();
    lemma_literals_5();
    lemma_literals_6();
}
// ---------------------------------------------------------------------------
// Numbers and names
// ---------------------------------------------------------------------------

/// Decimal digits hold no `v`.
proof fn lemma_dec(n: nat)
    ensures
        forall|i: int| 0 <= i < dec(n).len() ==> dec(n)[i] != 'v',
        wordless(dec(n)),
    decreases n,
{
    reveal(dec);
    if n >= 10 {
        lemma_dec(n / 10);
    }
    lemma_no_v(dec(n));
}

/// The text of an integer does not hold the word.
proof fn lemma_int_dec(i: int)
    ensures
        wordless(int_dec(i)),
{
    reveal(int_dec);
    if i < 0 {
        lemma_dec((-i) as nat);
        lemma_no_v(int_dec(i));
    } else {
        lemma_dec(i as nat);
    }
}

/// Hexadecimal digits hold no `v`.
proof fn lemma_hex(n: nat, width: nat)
    ensures
        forall|i: int|
            0 <= i < hex(n, width, false).len() ==> hex(n, width, false)[i] != 'v',
        wordless(hex(n, width, false)),
    decreases n, width,
{
    let rest = if width > 0 {
        (width - 1) as nat
    } else {
        0
    };
    if !(n < 16 && width <= 1) {
        lemma_hex(n / 16, rest);
    }
    lemma_no_v(hex(n, width, false));
}

/// The name of a value does not hold the word.
proof fn lemma_value_name(n: usize)
    ensures
        wordless(value_name(n)),
{
    reveal(value_name);
    lemma_dec(n as nat);
    lemma_literals();
    lemma_prefixed("%"@, dec(n as nat));
}

/// The name of a string constant does not hold the word.
proof fn lemma_string_name(i: nat)
    ensures
        wordless(string_name(i)),
{
    reveal(string_name);
    reveal_strlit("@.str");
    lemma_dec(i);
    lemma_no_v(string_name(i));
}

/// The name of a known type does not hold the word.
proof fn lemma_static_type(t: TypeHint)
    requires
        static_type(t),
    ensures
        wordless(value_type(t)),
{
    reveal_strlit("i64");
    reveal_strlit("double");
    reveal_strlit("void");
    lemma_short(value_type(t));
}

// ---------------------------------------------------------------------------
// Instructions
// ---------------------------------------------------------------------------

/// The state does not mention dynamic values.
spec fn clean(st: Ll) -> bool {
    &&& closed_text(st.out)
    &&& forall|n: Seq<char>| #[trigger] st.slots.contains_key(n) ==> wordless(st.slots[n])
    &&& forall|i: int| 0 <= i < st.strs.len() ==> wordless(#[trigger] st.strs[i])
}

/// Loads keep the state clean.
proof fn lemma_load(st: Ll, o: Opnd)
    requires
        clean(st),
        static_operand(o),
    ensures
        clean(load(st, o).0),
        wordless(load(st, o).1),
{
    reveal(load);
    lemma_literals();
    lemma_value_name(st.next);
    match o {
        Opnd::Reg(n, t) => {
            lemma_static_type(t);
            if st.slots.contains_key(n) {
                let t0 = st.out;
                lemma_literal(t0, "  "@);
                let t1 = t0 + "  "@;
                lemma_word(t1, st.value(), " = load "@);
                let t2 = t1 + st.value() + " = load "@;
                lemma_word(t2, value_type(t), ", "@);
                let t3 = t2 + value_type(t) + ", "@;
                lemma_word(t3, value_type(t), "* "@);
                let t4 = t3 + value_type(t) + "* "@;
                lemma_word(t4, st.slots[n], "\n"@);
                let t5 = t4 + st.slots[n] + "\n"@;
            } else {
                reveal_strlit("0.0");
                reveal_strlit("0");
                lemma_short(load(st, o).1);
            }
        },
        Opnd::ImmI64(v) => {
            lemma_int_dec(v as int);
        },
        Opnd::ImmF64(b) => {
            lemma_hex(b as nat, 16);
            reveal_strlit("0x");
            lemma_no_v("0x"@ + hex(b as nat, 16, false));
        },
        Opnd::ImmStr(i) => {
            if i < st.strs.len() {
                lemma_string_name(i as nat);
                let t0 = st.out;
                lemma_literal(t0, "  "@);
                let t1 = t0 + "  "@;
                lemma_word(t1, st.value(), " = getelementptr "@);
                let t2 = t1 + st.value() + " = getelementptr "@;
                lemma_word(t2, st.strs[i as int], ", "@);
                let t3 = t2 + st.strs[i as int] + ", "@;
                lemma_word(t3, st.strs[i as int], "* "@);
                let t4 = t3 + st.strs[i as int] + "* "@;
                lemma_word(t4, string_name(i as nat), ", i32 0, i32 0\n"@);
                let t5 = t4 + string_name(i as nat) + ", i32 0, i32 0\n"@;
            } else {
                reveal_strlit("null");
                lemma_short("null"@);
            }
        },
        Opnd::ImmBool(b) => {
            reveal_strlit("1");
            reveal_strlit("0");
            lemma_short(load(st, o).1);
        },
        Opnd::Null => {
            reveal_strlit("0");
            lemma_short("0"@);
        },
        Opnd::Label(l) => {
            lemma_bounded("blockaddress(@main, %"@);
            lemma_word("blockaddress(@main, %"@, clean_name(l), ")"@);
            reveal(closed_text);
        },
        Opnd::Sym(s) => {
            lemma_bounded("bitcast (i64* @"@);
            lemma_word("bitcast (i64* @"@, s, " to i8*)"@);
            reveal(closed_text);
        },
    }
}

/// Stores keep the state clean.
proof fn lemma_store(st: Ll, o: Opnd, v: Seq<char>, t: TypeHint)
    requires
        clean(st),
        wordless(v),
        static_type(t),
    ensures
        clean(store(st, o, v, t)),
{
    reveal(store);
    lemma_literals();
    lemma_static_type(t);
    match o {
        Opnd::Reg(n, _) => {
            if st.slots.contains_key(n) {
                let t0 = st.out;
                lemma_literal(t0, "  store "@);
                let t1 = t0 + "  store "@;
                lemma_word(t1, value_type(t), " "@);
                let t2 = t1 + value_type(t) + " "@;
                lemma_word(t2, v, ", "@);
                let t3 = t2 + v + ", "@;
                lemma_word(t3, value_type(t), "* "@);
                let t4 = t3 + value_type(t) + "* "@;
                lemma_word(t4, st.slots[n], "\n"@);
                let t5 = t4 + st.slots[n] + "\n"@;
            }
        },
        _ => {},
    }
}

/// Loads of several operands keep the state clean.
proof fn lemma_loads(st: Ll, os: Seq<Opnd>, k: nat)
    requires
        clean(st),
        static_operands(os),
        k <= os.len(),
    ensures
        clean(loads(st, os, k).0),
        loads(st, os, k).1.len() == k,
        forall|i: int| 0 <= i < k ==> wordless(#[trigger] loads(st, os, k).1[i]),
    decreases k,
{
    if k > 0 {
        lemma_loads(st, os, (k - 1) as nat);
        let (s, v) = loads(st, os, (k - 1) as nat);
        lemma_load(s, os[k - 1]);
    }
}

/// Typed arguments do not hold the word.
proof fn lemma_typed_args(os: Seq<Opnd>, vs: Seq<Seq<char>>)
    requires
        static_operands(os),
        vs.len() == os.len(),
        forall|i: int| 0 <= i < vs.len() ==> wordless(#[trigger] vs[i]),
    ensures
        wordless(joined(typed_args(os, vs), ", "@)),
{
    lemma_literals();
    let parts = typed_args(os, vs);
    assert forall|i: int| 0 <= i < parts.len() implies wordless(#[trigger] parts[i]) by {
        assert(static_operand(os[i]));
        lemma_static_type(os[i].hint());
        lemma_between(value_type(os[i].hint()), " "@, vs[i]);
    }
    lemma_joined(parts, ", "@);
}

/// The state stays clean behind a static binary operation.
proof fn lemma_binary(st: Ll, op: BinOp, dst: Opnd, lhs: Opnd, rhs: Opnd, ty: TypeHint)
    requires
        clean(st),
        !op.dynamic(),
        static_operand(lhs),
        static_operand(rhs),
    ensures
        clean(emit_binary(st, op, dst, lhs, rhs, ty)),
{
    reveal(emit_binary);
    lemma_literals();
    lemma_load(st, lhs);
    let (s1, l) = load(st, lhs);
    lemma_load(s1, rhs);
    let (s2, r) = load(s1, rhs);
    let v = s2.value();
    lemma_value_name(s2.next);
    if ty == TypeHint::F64 {
        assert(wordless(float_insn(op))) by {
            reveal(float_insn);
            reveal_strlit("fsub");
            reveal_strlit("fmul");
            reveal_strlit("fdiv");
            reveal_strlit("fadd");
            lemma_short(float_insn(op));
        }
        let t0 = s2.out;
        lemma_literal(t0, "  "@);
        let t1 = t0 + "  "@;
        lemma_word(t1, v, " = "@);
        let t2 = t1 + v + " = "@;
        lemma_word(t2, float_insn(op), " double "@);
        let t3 = t2 + float_insn(op) + " double "@;
        lemma_word(t3, l, ", "@);
        let t4 = t3 + l + ", "@;
        lemma_word(t4, r, "\n"@);
        let t5 = t4 + r + "\n"@;
        lemma_store(s2.fresh().with(t5), dst, v, TypeHint::F64);
    } else {
        assert(wordless(int_insn(op))) by {
            reveal(int_insn);
            reveal_strlit("sub");
            reveal_strlit("mul");
            reveal_strlit("sdiv");
            reveal_strlit("srem");
            reveal_strlit("and");
            reveal_strlit("or");
            reveal_strlit("xor");
            reveal_strlit("shl");
            reveal_strlit("ashr");
            reveal_strlit("add");
            lemma_short(int_insn(op));
        }
        let t0 = s2.out;
        lemma_literal(t0, "  "@);
        let t1 = t0 + "  "@;
        lemma_word(t1, v, " = "@);
        let t2 = t1 + v + " = "@;
        lemma_word(t2, int_insn(op), " i64 "@);
        let t3 = t2 + int_insn(op) + " i64 "@;
        lemma_word(t3, l, ", "@);
        let t4 = t3 + l + ", "@;
        lemma_word(t4, r, "\n"@);
        let t5 = t4 + r + "\n"@;
        lemma_store(s2.fresh().with(t5), dst, v, TypeHint::I64);
    }
}

/// The state stays clean behind a negation.
proof fn lemma_neg(st: Ll, dst: Opnd, src: Opnd, ty: TypeHint)
    requires
        clean(st),
        static_operand(src),
        static_type(ty),
    ensures
        clean(emit_neg(st, dst, src, ty)),
{
    reveal(emit_neg);
    lemma_literals();
    lemma_load(st, src);
    let (s1, v) = load(st, src);
    let r = s1.value();
    lemma_value_name(s1.next);
    if ty == TypeHint::F64 {
        let t0 = s1.out;
        lemma_literal(t0, "  "@);
        let t1 = t0 + "  "@;
        lemma_word(t1, r, " = fneg double "@);
        let t2 = t1 + r + " = fneg double "@;
        lemma_word(t2, v, "\n"@);
        let t3 = t2 + v + "\n"@;
        lemma_store(s1.fresh().with(t3), dst, r, ty);
    } else {
        let t0 = s1.out;
        lemma_literal(t0, "  "@);
        let t1 = t0 + "  "@;
        lemma_word(t1, r, " = sub i64 0, "@);
        let t2 = t1 + r + " = sub i64 0, "@;
        lemma_word(t2, v, "\n"@);
        let t3 = t2 + v + "\n"@;
        lemma_store(s1.fresh().with(t3), dst, r, ty);
    }
}

/// The state stays clean behind a logical negation.
proof fn lemma_not(st: Ll, dst: Opnd, src: Opnd)
    requires
        clean(st),
        static_operand(src),
    ensures
        clean(emit_not(st, dst, src)),
{
    reveal(emit_not);
    lemma_literals();
    lemma_load(st, src);
    let (s1, v) = load(st, src);
    let r = s1.value();
    lemma_value_name(s1.next);
    let t0 = s1.out;
    lemma_literal(t0, "  "@);
    let t1 = t0 + "  "@;
    lemma_word(t1, r, " = xor i64 "@);
    let t2 = t1 + r + " = xor i64 "@;
    lemma_word(t2, v, ", 1\n"@);
    let t3 = t2 + v + ", 1\n"@;
    lemma_store(s1.fresh().with(t3), dst, r, TypeHint::Bool);
}

/// The name of a predicate does not hold the word.
proof fn lemma_predicate(c: Cond, t: TypeHint)
    ensures
        wordless(predicate(c, t)),
{
    reveal_strlit("oeq");
    reveal_strlit("one");
    reveal_strlit("olt");
    reveal_strlit("ole");
    reveal_strlit("ogt");
    reveal_strlit("oge");
    reveal_strlit("eq");
    reveal_strlit("ne");
    reveal_strlit("slt");
    reveal_strlit("sle");
    reveal_strlit("sgt");
    reveal_strlit("sge");
    lemma_short(predicate(c, t));
}

/// A comparison of two values keeps the text closed.
proof fn lemma_compared(out: Seq<char>, c: Seq<char>, cond: Cond, l: Seq<char>, r: Seq<char>, ty: TypeHint)
    requires
        closed_text(out),
        wordless(c),
        wordless(l),
        wordless(r),
    ensures
        closed_text(compared(out, c, cond, l, r, ty)),
{
    reveal(compared);
    lemma_literals();
    lemma_predicate(cond, ty);
    if ty == TypeHint::F64 {
        let t0 = out;
        lemma_literal(t0, "  "@);
        let t1 = t0 + "  "@;
        lemma_word(t1, c, " = fcmp "@);
        let t2 = t1 + c + " = fcmp "@;
        lemma_word(t2, predicate(cond, ty), " double "@);
        let t3 = t2 + predicate(cond, ty) + " double "@;
        lemma_word(t3, l, ", "@);
        let t4 = t3 + l + ", "@;
        lemma_word(t4, r, "\n"@);
        let t5 = t4 + r + "\n"@;
    } else {
        let t0 = out;
        lemma_literal(t0, "  "@);
        let t1 = t0 + "  "@;
        lemma_word(t1, c, " = icmp "@);
        let t2 = t1 + c + " = icmp "@;
        lemma_word(t2, predicate(cond, ty), " i64 "@);
        let t3 = t2 + predicate(cond, ty) + " i64 "@;
        lemma_word(t3, l, ", "@);
        let t4 = t3 + l + ", "@;
        lemma_word(t4, r, "\n"@);
        let t5 = t4 + r + "\n"@;
    }
}

/// A conditional branch keeps the text closed.
proof fn lemma_branched(out: Seq<char>, n: usize, target: Seq<char>)
    requires
        closed_text(out),
        wordless(clean_name(target)),
    ensures
        closed_text(branched(out, n, target)),
{
    reveal(branched);
    lemma_literals();
    lemma_value_name(n);
    assert(wordless(next_label(n))) by {
        reveal(next_label);
        reveal_strlit("next$");
        lemma_dec(n as nat);
        lemma_no_v(next_label(n));
    }
    let t0 = out;
    lemma_literal(t0, "  br i1 "@);
    let t1 = t0 + "  br i1 "@;
    lemma_word(t1, value_name(n), ", label %"@);
    let t2 = t1 + value_name(n) + ", label %"@;
    lemma_word(t2, clean_name(target), ", label %"@);
    let t3 = t2 + clean_name(target) + ", label %"@;
    lemma_word(t3, next_label(n), "\n"@);
    let t4 = t3 + next_label(n) + "\n"@;
    lemma_word(t4, next_label(n), ":\n"@);
    let t5 = t4 + next_label(n) + ":\n"@;
}

/// The state stays clean behind a comparison.
proof fn lemma_compare(st: Ll, dst: Opnd, cond: Cond, lhs: Opnd, rhs: Opnd, ty: TypeHint)
    requires
        clean(st),
        static_operand(lhs),
        static_operand(rhs),
    ensures
        clean(emit_compare(st, dst, cond, lhs, rhs, ty)),
{
    reveal(emit_compare);
    lemma_literals();
    lemma_load(st, lhs);
    let (s1, l) = load(st, lhs);
    lemma_load(s1, rhs);
    let (s2, r) = load(s1, rhs);
    let c = s2.value();
    lemma_value_name(s2.next);
    lemma_compared(s2.out, c, cond, l, r, ty);
    let s3 = s2.fresh().with(compared(s2.out, c, cond, l, r, ty));
    assert(clean(s3));
    let e = s3.value();
    lemma_value_name(s3.next);
    let t0 = s3.out;
    lemma_literal(t0, "  "@);
    let t1 = t0 + "  "@;
    lemma_word(t1, e, " = zext i1 "@);
    let t2 = t1 + e + " = zext i1 "@;
    lemma_word(t2, c, " to i64\n"@);
    let t3 = t2 + c + " to i64\n"@;
    lemma_store(s3.fresh().with(t3), dst, e, TypeHint::Bool);
}

/// The state stays clean behind a branch on a comparison.
proof fn lemma_branch(st: Ll, cond: Cond, lhs: Opnd, rhs: Opnd, target: Seq<char>)
    requires
        clean(st),
        static_operand(lhs),
        static_operand(rhs),
        wordless(clean_name(target)),
    ensures
        clean(emit_branch(st, cond, lhs, rhs, target)),
{
    reveal(emit_branch);
    lemma_literals();
    lemma_load(st, lhs);
    let (s1, l) = load(st, lhs);
    lemma_load(s1, rhs);
    let (s2, r) = load(s1, rhs);
    lemma_value_name(s2.next);
    let ty = branch_type(lhs, rhs);
    lemma_compared(s2.out, s2.value(), cond, l, r, ty);
    lemma_branched(compared(s2.out, s2.value(), cond, l, r, ty), s2.next, target);
}

/// The state stays clean behind a branch on a value.
proof fn lemma_branch_true(st: Ll, cond: Opnd, target: Seq<char>)
    requires
        clean(st),
        static_operand(cond),
        wordless(clean_name(target)),
    ensures
        clean(emit_branch_true(st, cond, target)),
{
    reveal(emit_branch_true);
    lemma_literals();
    lemma_load(st, cond);
    let (s1, v) = load(st, cond);
    lemma_value_name(s1.next);
    let ty = branch_type(cond, cond);
    let zero = if cond.hint() == TypeHint::F64 {
        "0.0"@
    } else {
        "0"@
    };
    reveal_strlit("0.0");
    reveal_strlit("0");
    lemma_short(zero);
    lemma_compared(s1.out, s1.value(), Cond::Ne, v, zero, ty);
    lemma_branched(compared(s1.out, s1.value(), Cond::Ne, v, zero, ty), s1.next, target);
}

/// The type of a memory access does not hold the word.
proof fn lemma_access_type(n: u32)
    ensures
        wordless(access_type(n)),
{
    reveal_strlit("i8");
    reveal_strlit("i16");
    reveal_strlit("i32");
    reveal_strlit("i64");
    lemma_short(access_type(n));
}

/// The state stays clean behind a load from memory.
proof fn lemma_memory_load(st: Ll, dst: Opnd, addr: Opnd, size: u32, ty: TypeHint)
    requires
        clean(st),
        static_operand(addr),
        static_type(ty),
    ensures
        clean(emit_memory_load(st, dst, addr, size, ty)),
{
    reveal(emit_memory_load);
    lemma_literals();
    lemma_load(st, addr);
    let (s1, a) = load(st, addr);
    let r = s1.value();
    lemma_value_name(s1.next);
    lemma_static_type(ty);
    lemma_access_type(size);
    let t0 = s1.out;
    lemma_literal(t0, "  "@);
    let t1 = t0 + "  "@;
    lemma_word(t1, r, " = load "@);
    let t2 = t1 + r + " = load "@;
    lemma_word(t2, value_type(ty), ", "@);
    let t3 = t2 + value_type(ty) + ", "@;
    lemma_word(t3, access_type(size), "* "@);
    let t4 = t3 + access_type(size) + "* "@;
    lemma_word(t4, a, "\n"@);
    let t5 = t4 + a + "\n"@;
    lemma_store(s1.fresh().with(t5), dst, r, ty);
}

/// The state stays clean behind a store to memory.
proof fn lemma_memory_store(st: Ll, addr: Opnd, value: Opnd, size: u32, ty: TypeHint)
    requires
        clean(st),
        static_operand(addr),
        static_operand(value),
        static_type(ty),
    ensures
        clean(emit_memory_store(st, addr, value, size, ty)),
{
    reveal(emit_memory_store);
    lemma_literals();
    lemma_load(st, addr);
    let (s1, a) = load(st, addr);
    lemma_load(s1, value);
    let (s2, v) = load(s1, value);
    lemma_static_type(ty);
    lemma_access_type(size);
    let t0 = s2.out;
    lemma_literal(t0, "  store "@);
    let t1 = t0 + "  store "@;
    lemma_word(t1, value_type(ty), " "@);
    let t2 = t1 + value_type(ty) + " "@;
    lemma_word(t2, v, ", "@);
    let t3 = t2 + v + ", "@;
    lemma_word(t3, access_type(size), "* "@);
    let t4 = t3 + access_type(size) + "* "@;
    lemma_word(t4, a, "\n"@);
    let t5 = t4 + a + "\n"@;
}

/// The state stays clean behind a stack allocation.
proof fn lemma_alloca(st: Ll, dst: Opnd, size: Opnd)
    requires
        clean(st),
        static_operand(size),
    ensures
        clean(emit_alloca(st, dst, size)),
{
    reveal(emit_alloca);
    lemma_literals();
    lemma_load(st, size);
    let (s1, n) = load(st, size);
    let r = s1.value();
    lemma_value_name(s1.next);
    let t0 = s1.out;
    lemma_literal(t0, "  "@);
    let t1 = t0 + "  "@;
    lemma_word(t1, r, " = alloca i8, i64 "@);
    let t2 = t1 + r + " = alloca i8, i64 "@;
    lemma_word(t2, n, "\n"@);
    let t3 = t2 + n + "\n"@;
    lemma_store(s1.fresh().with(t3), dst, r, TypeHint::Ptr);
}

/// The state stays clean behind a call.
proof fn lemma_call(st: Ll, dst: Option<Opnd>, func: Seq<char>, args: Seq<Opnd>, ty: TypeHint)
    requires
        clean(st),
        static_operands(args),
        static_type(ty),
        wordless(func),
    ensures
        clean(emit_call(st, dst, func, args, value_type(ty), ty)),
{
    reveal(emit_call);
    lemma_literals();
    lemma_loads(st, args, args.len());
    let (s1, vs) = loads(st, args, args.len());
    let list = joined(typed_args(args, vs), ", "@);
    lemma_typed_args(args, vs);
    lemma_static_type(ty);
    lemma_value_name(s1.next);
    match dst {
        Some(d) => {
            let t0 = s1.out;
            lemma_literal(t0, "  "@);
            let t1 = t0 + "  "@;
            lemma_word(t1, s1.value(), " = call "@);
            let t2 = t1 + s1.value() + " = call "@;
            lemma_word(t2, value_type(ty), " @"@);
            let t3 = t2 + value_type(ty) + " @"@;
            lemma_word(t3, func, "("@);
            let t4 = t3 + func + "("@;
            lemma_word(t4, list, ")\n"@);
            let t5 = t4 + list + ")\n"@;
            lemma_store(s1.fresh().with(t5), d, s1.value(), ty);
        },
        None => {
            let t0 = s1.out;
            lemma_literal(t0, "  call void @"@);
            let t1 = t0 + "  call void @"@;
            lemma_word(t1, func, "("@);
            let t2 = t1 + func + "("@;
            lemma_word(t2, list, ")\n"@);
            let t3 = t2 + list + ")\n"@;
        },
    }
}

/// The state stays clean behind a return.
proof fn lemma_ret(st: Ll, value: Option<Opnd>)
    requires
        clean(st),
        value matches Some(o) ==> static_operand(o),
    ensures
        clean(emit_ret(st, value)),
{
    reveal(emit_ret);
    lemma_literals();
    match value {
        Some(o) => {
            lemma_load(st, o);
            let (s1, v) = load(st, o);
            lemma_static_type(o.hint());
            let t0 = s1.out;
            lemma_literal(t0, "  ret "@);
            let t1 = t0 + "  ret "@;
            lemma_word(t1, value_type(o.hint()), " "@);
            let t2 = t1 + value_type(o.hint()) + " "@;
            lemma_word(t2, v, "\n"@);
            let t3 = t2 + v + "\n"@;
        },
        None => {
            let t0 = st.out;
            lemma_literal(t0, "  ret void\n"@);
            let t1 = t0 + "  ret void\n"@;
        },
    }
}

/// Constraints do not hold the word.
proof fn lemma_constraints(outs: Seq<(Seq<char>, Opnd)>, ins: Seq<(Seq<char>, Opnd)>)
    requires
        static_asm_operands(outs),
        static_asm_operands(ins),
    ensures
        wordless(constraint_string(outs, ins)),
{
    lemma_literals();
    let a = constraint_list(outs, "="@);
    let b = constraint_list(ins, ""@);
    assert forall|i: int| 0 <= i < a.len() implies wordless(#[trigger] a[i]) by {
        assert(wordless(outs[i].0));
        lemma_prefixed("="@, outs[i].0);
    }
    reveal_strlit("");
    assert forall|i: int| 0 <= i < b.len() implies wordless(#[trigger] b[i]) by {
        assert(wordless(ins[i].0));
        assert(""@ + ins[i].0 =~= ins[i].0);
    }
    lemma_joined(a, ","@);
    lemma_joined(b, ","@);
    let x = joined(a, ","@);
    let y = joined(b, ","@);
    if outs.len() > 0 && ins.len() > 0 {
        lemma_between(x, ","@, y);
    } else {
        assert(x + ""@ =~= x);
        if outs.len() == 0 {
            assert(x + y =~= y);
        } else {
            assert(x + y =~= x);
        }
    }
}

/// The state stays clean behind an assembly block.
proof fn lemma_template(
    st: Ll,
    template: Seq<char>,
    ins: Seq<(Seq<char>, Opnd)>,
    outs: Seq<(Seq<char>, Opnd)>,
)
    requires
        clean(st),
        static_asm_operands(ins),
        static_asm_operands(outs),
        wordless(template_escaped(template)),
    ensures
        clean(emit_asm(st, template, ins, outs)),
{
    reveal(emit_asm);
    lemma_literals();
    let os = plain_operands(ins);
    assert forall|i: int| 0 <= i < os.len() implies static_operand(#[trigger] os[i]) by {
        assert(static_operand(ins[i].1));
    }
    lemma_loads(st, os, os.len());
    let (s1, vs) = loads(st, os, ins.len());
    lemma_joined(vs, ", "@);
    lemma_constraints(outs, ins);
    let t0 = s1.out;
    lemma_literal(t0, "  call void asm sideeffect \""@);
    let t1 = t0 + "  call void asm sideeffect \""@;
    lemma_word(t1, template_escaped(template), "\", \""@);
    let t2 = t1 + template_escaped(template) + "\", \""@;
    lemma_word(t2, constraint_string(outs, ins), "\"("@);
    let t3 = t2 + constraint_string(outs, ins) + "\"("@;
    lemma_word(t3, joined(vs, ", "@), ")\n"@);
    let t4 = t3 + joined(vs, ", "@) + ")\n"@;
}

/// The state stays clean behind an instruction that leaves a line of its own.
proof fn lemma_note(st: Ll, n: Insn)
    requires
        clean(st),
        static_insn(n),
    ensures
        clean(emit_note(st, n)),
{
    reveal(emit_note);
    lemma_literals();
    match n {
        Insn::Label(l) => {
            let t0 = st.out;
            lemma_literal(t0, "; label "@);
            let t1 = t0 + "; label "@;
            lemma_word(t1, clean_name(l), "\n"@);
            let t2 = t1 + clean_name(l) + "\n"@;
            lemma_word(t2, clean_name(l), ":\n"@);
            let t3 = t2 + clean_name(l) + ":\n"@;
        },
        Insn::Comment(c) => {
            let t0 = st.out;
            lemma_literal(t0, "  ; "@);
            let t1 = t0 + "  ; "@;
            lemma_word(t1, c, "\n"@);
            let t2 = t1 + c + "\n"@;
        },
        Insn::SrcLoc { line, col } => {
            lemma_dec(line as nat);
            lemma_dec(col as nat);
            let t0 = st.out;
            lemma_literal(t0, "  ; srcloc "@);
            let t1 = t0 + "  ; srcloc "@;
            lemma_word(t1, dec(line as nat), ":"@);
            let t2 = t1 + dec(line as nat) + ":"@;
            lemma_word(t2, dec(col as nat), "\n"@);
            let t3 = t2 + dec(col as nat) + "\n"@;
        },
        Insn::Jump { target } => {
            let t0 = st.out;
            lemma_literal(t0, "  br label %"@);
            let t1 = t0 + "  br label %"@;
            lemma_word(t1, clean_name(target), "\n"@);
            let t2 = t1 + clean_name(target) + "\n"@;
        },
        Insn::PipelineMarker { name } => {
            let t0 = st.out;
            lemma_literal(t0, "  ; @pipeline "@);
            let t1 = t0 + "  ; @pipeline "@;
            lemma_word(t1, name, "\n"@);
            let t2 = t1 + name + "\n"@;
        },
        Insn::IsrEntry { group, priority } => {
            lemma_int_dec(priority as int);
            let t0 = st.out;
            lemma_literal(t0, "  ; @isr_group "@);
            let t1 = t0 + "  ; @isr_group "@;
            lemma_word(t1, group, " prio="@);
            let t2 = t1 + group + " prio="@;
            lemma_word(t2, int_dec(priority as int), "\n"@);
            let t3 = t2 + int_dec(priority as int) + "\n"@;
        },
        Insn::WcetNote { cycles, budget } => {
            lemma_dec(cycles as nat);
            lemma_dec(budget as nat);
            let t0 = st.out;
            lemma_literal(t0, "  ; wcet cycles="@);
            let t1 = t0 + "  ; wcet cycles="@;
            lemma_word(t1, dec(cycles as nat), " budget="@);
            let t2 = t1 + dec(cycles as nat) + " budget="@;
            lemma_word(t2, dec(budget as nat), "\n"@);
            let t3 = t2 + dec(budget as nat) + "\n"@;
        },
        Insn::DiffMeta { symbol, offset } => {
            lemma_hex(offset as nat, 0);
            let t0 = st.out;
            lemma_literal(t0, "  ; diffmeta "@);
            let t1 = t0 + "  ; diffmeta "@;
            lemma_word(t1, symbol, " +0x"@);
            let t2 = t1 + symbol + " +0x"@;
            lemma_word(t2, hex(offset as nat, 0, false), "\n"@);
            let t3 = t2 + hex(offset as nat, 0, false) + "\n"@;
        },
        Insn::Push { src } => {
            lemma_load(st, src);
            let (s1, v) = load(st, src);
            let t0 = s1.out;
            lemma_literal(t0, "  ; push "@);
            let t1 = t0 + "  ; push "@;
            lemma_word(t1, v, "\n"@);
            let t2 = t1 + v + "\n"@;
        },
        Insn::StackFree { ptr, size } => {
            lemma_load(st, ptr);
            let (s1, p) = load(st, ptr);
            let t0 = s1.out;
            lemma_literal(t0, "  call void @llvm.lifetime.end.p0i8(i64 -1, i8* "@);
            let t1 = t0 + "  call void @llvm.lifetime.end.p0i8(i64 -1, i8* "@;
            lemma_word(t1, p, ")\n"@);
            let t2 = t1 + p + ")\n"@;
        },
        Insn::Prefetch { addr, hint } => {
            lemma_load(st, addr);
            let (s1, a) = load(st, addr);
            let t0 = s1.out;
            lemma_literal(t0, "  call void @llvm.prefetch.p0i8(i8* "@);
            let t1 = t0 + "  call void @llvm.prefetch.p0i8(i8* "@;
            lemma_word(t1, a, ", i32 0, i32 3, i32 1)\n"@);
            let t2 = t1 + a + ", i32 0, i32 3, i32 1)\n"@;
        },
        _ => {},
    }
}

/// The state stays clean behind a static instruction.
proof fn lemma_one(st: Ll, n: Insn)
    requires
        clean(st),
        static_insn(n),
    ensures
        clean(emit_one(st, n)),
{
    reveal(emit_one);
    match n {
        Insn::Mov { dst, src, ty } => {
            lemma_load(st, src);
            let (s1, v) = load(st, src);
            lemma_store(s1, dst, v, ty);
        },
        Insn::Bin { op, dst, lhs, rhs, ty } => {
            lemma_binary(st, op, dst, lhs, rhs, ty);
        },
        Insn::Neg { dst, src, ty } => {
            lemma_neg(st, dst, src, ty);
        },
        Insn::Not { dst, src, ty } => {
            lemma_not(st, dst, src);
        },
        Insn::Cmp { dst, cond, lhs, rhs, ty } => {
            lemma_compare(st, dst, cond, lhs, rhs, ty);
        },
        Insn::Branch { cond, lhs, rhs, target } => {
            lemma_branch(st, cond, lhs, rhs, target);
        },
        Insn::BranchTrue { cond, target } => {
            lemma_branch_true(st, cond, target);
        },
        Insn::Load { dst, addr, size, ty } => {
            lemma_memory_load(st, dst, addr, size, ty);
        },
        Insn::Store { addr, value, size, ty } => {
            lemma_memory_store(st, addr, value, size, ty);
        },
        Insn::Alloca { dst, size, align } => {
            lemma_alloca(st, dst, size);
        },
        Insn::Call { dst, func, args, ty } => {
            lemma_call(st, dst, func, args, ty);
        },
        Insn::Ret { value } => {
            lemma_ret(st, value);
        },
        Insn::Asm { template, inputs, outputs, clobbers } => {
            lemma_template(st, template, inputs, outputs);
        },
        _ => {
            lemma_note(st, n);
        },
    }
}

/// The state stays clean behind static instructions.
proof fn lemma_body(st: Ll, ns: Seq<Insn>, k: nat)
    requires
        clean(st),
        forall|i: int| 0 <= i < ns.len() ==> static_insn(#[trigger] ns[i]),
    ensures
        clean(emit_body(st, ns, k)),
    decreases k,
{
    if k > 0 && k <= ns.len() {
        lemma_body(st, ns, (k - 1) as nat);
        lemma_one(emit_body(st, ns, (k - 1) as nat), ns[k - 1]);
    }
}

// ---------------------------------------------------------------------------
// Functions and modules
// ---------------------------------------------------------------------------

/// The position of a register of a parameter.
proof fn lemma_param_position(regs: Seq<Seq<char>>, r: Seq<char>, i: int)
    requires
        0 <= i,
    ensures
        param_position(regs, r, i) matches Some(k) ==> i <= k < regs.len() && regs[k] == r,
    decreases regs.len() - i,
{
    if i < regs.len() && regs[i] != r {
        lemma_param_position(regs, r, i + 1);
    }
}

/// The type of a stack slot is known.
proof fn lemma_slot_type(f: IrFn, r: Seq<char>)
    requires
        static_fn(f),
        params_match(f),
        fn_regs(f).contains(r),
    ensures
        wordless(value_type(slot_type(f, r))),
{
    lemma_param_position(f.param_regs, r, 0);
    match param_position(f.param_regs, r, 0) {
        Some(i) => {
            assert(i < f.params.len()) by {
                if i >= f.params.len() {
                    assert(fn_regs(f).contains(f.param_regs[i]));
                }
            }
            assert(static_type(f.params[i].1));
            lemma_static_type(f.params[i].1);
        },
        None => {
            lemma_static_type(TypeHint::I64);
        },
    }
}

/// Stack slots keep the state clean.
proof fn lemma_alloc_slots(st: Ll, f: IrFn, k: nat)
    requires
        clean(st),
        static_fn(f),
        params_match(f),
        k <= fn_regs(f).len(),
        forall|n: Seq<char>| #[trigger] st.slots.contains_key(n) ==> fn_regs(f).contains(n),
    ensures
        clean(alloc_slots(st, f, fn_regs(f), k)),
        forall|n: Seq<char>| #[trigger]
            alloc_slots(st, f, fn_regs(f), k).slots.contains_key(n) ==> fn_regs(f).contains(n),
    decreases k,
{
    if k > 0 {
        lemma_alloc_slots(st, f, (k - 1) as nat);
        let regs = fn_regs(f);
        let s = alloc_slots(st, f, regs, (k - 1) as nat);
        lemma_literals();
        lemma_value_name(s.next);
        assert(regs.contains(regs[k - 1]));
        lemma_slot_type(f, regs[k - 1]);
        let t0 = s.out;
        lemma_literal(t0, "  "@);
        let t1 = t0 + "  "@;
        lemma_word(t1, s.value(), " = alloca "@);
        let t2 = t1 + s.value() + " = alloca "@;
        lemma_word(t2, value_type(slot_type(f, regs[k - 1])), ", align 8\n"@);
        let t3 = t2 + value_type(slot_type(f, regs[k - 1])) + ", align 8\n"@;
    }
}

/// The stores of parameters keep the text closed.
proof fn lemma_store_params(out: Seq<char>, slots: Map<Seq<char>, Seq<char>>, f: IrFn, k: nat)
    requires
        closed_text(out),
        static_fn(f),
        params_match(f),
        k <= f.param_regs.len(),
        forall|n: Seq<char>| #[trigger]
            slots.contains_key(n) ==> wordless(slots[n]) && fn_regs(f).contains(n),
    ensures
        closed_text(store_params(out, slots, f, k)),
    decreases k,
{
    if k > 0 {
        lemma_store_params(out, slots, f, (k - 1) as nat);
        let prev = store_params(out, slots, f, (k - 1) as nat);
        let r = f.param_regs[k - 1];
        if slots.contains_key(r) {
            assert(k - 1 < f.params.len()) by {
                if k - 1 >= f.params.len() {
                    assert(fn_regs(f).contains(f.param_regs[k - 1]));
                }
            }
            let t = f.params[k - 1].1;
            assert(static_type(t));
            lemma_static_type(t);
            lemma_literals();
            assert(wordless(clean_name(f.param_regs[k - 1])));
            let t0 = prev;
            lemma_literal(t0, "  store "@);
            let t1 = t0 + "  store "@;
            lemma_word(t1, value_type(t), " %"@);
            let t2 = t1 + value_type(t) + " %"@;
            lemma_word(t2, clean_name(r), ", "@);
            let t3 = t2 + clean_name(r) + ", "@;
            lemma_word(t3, value_type(t), "* "@);
            let t4 = t3 + value_type(t) + "* "@;
            lemma_word(t4, slots[r], "\n"@);
            let t5 = t4 + slots[r] + "\n"@;
        }
    }
}

/// The start of a static function keeps the state clean.
proof fn lemma_function_start(st: Ll, f: IrFn)
    requires
        clean(st),
        static_fn(f),
        params_match(f),
    ensures
        clean(function_start(st, f)),
{
    reveal(function_start);
    lemma_literals();
    lemma_static_type(f.return_ty);
    let ps = param_texts(f);
    assert forall|i: int| 0 <= i < ps.len() implies wordless(#[trigger] ps[i]) by {
        assert(static_type(f.params[i].1));
        lemma_static_type(f.params[i].1);
        assert(wordless(clean_name(f.param_regs[i])));
        lemma_between(value_type(f.params[i].1), " %"@, clean_name(f.param_regs[i]));
    }
    lemma_joined(ps, ", "@);
    let t0 = st.out;
    lemma_literal(t0, "\ndefine "@);
    let t1 = t0 + "\ndefine "@;
    lemma_word(t1, value_type(f.return_ty), " @"@);
    let t2 = t1 + value_type(f.return_ty) + " @"@;
    lemma_word(t2, f.name, "("@);
    let t3 = t2 + f.name + "("@;
    lemma_word(t3, joined(param_texts(f), ", "@), ") {\nentry:\n"@);
    let t4 = t3 + joined(param_texts(f), ", "@) + ") {\nentry:\n"@;
    let head = Ll { out: t4, slots: Map::empty(), next: 0, ..st };
    lemma_alloc_slots(head, f, fn_regs(f).len());
    let s = alloc_slots(head, f, fn_regs(f), fn_regs(f).len());
    lemma_store_params(s.out, s.slots, f, f.param_regs.len());
}

/// A static function keeps the state clean.
proof fn lemma_fn(st: Ll, f: IrFn)
    requires
        clean(st),
        static_fn(f),
        params_match(f),
    ensures
        clean(emit_fn(st, f)),
{
    lemma_function_start(st, f);
    lemma_body(function_start(st, f), f.body, f.body.len());
    let s = emit_body(function_start(st, f), f.body, f.body.len());
    reveal(function_end);
    lemma_literals();
    reveal_strlit("void");
    reveal_strlit("i64 0");
    reveal_strlit("double 0.0");
    lemma_short(end_value(f.return_ty));
    let t0 = s.out;
    lemma_literal(t0, "  ret "@);
    let t1 = t0 + "  ret "@;
    lemma_word(t1, end_value(f.return_ty), "\n"@);
    let t2 = t1 + end_value(f.return_ty) + "\n"@;
    lemma_literal(t2, "}\n"@);
    lemma_literal(s.out, "}\n"@);
}

/// Static functions keep the state clean.
proof fn lemma_fns(st: Ll, fs: Seq<IrFn>, k: nat)
    requires
        clean(st),
        forall|i: int| 0 <= i < fs.len() ==> static_fn(#[trigger] fs[i]),
        forall|i: int| 0 <= i < fs.len() ==> params_match(#[trigger] fs[i]),
    ensures
        clean(emit_fns(st, fs, k)),
    decreases k,
{
    if k > 0 && k <= fs.len() {
        lemma_fns(st, fs, (k - 1) as nat);
        lemma_fn(emit_fns(st, fs, (k - 1) as nat), fs[k - 1]);
    }
}

/// String constants keep the state clean.
proof fn lemma_strings(st: Ll, pool: Seq<Seq<char>>, k: nat)
    requires
        clean(st),
        forall|i: int| 0 <= i < pool.len() ==> wordless(constant_text(#[trigger] pool[i])),
    ensures
        clean(emit_strings(st, pool, k)),
    decreases k,
{
    if k > 0 && k <= pool.len() {
        lemma_strings(st, pool, (k - 1) as nat);
        let s = emit_strings(st, pool, (k - 1) as nat);
        let n = string_name((k - 1) as nat);
        lemma_literals();
        let t = array_type(pool[k - 1]);
        assert(wordless(t)) by {
            reveal(array_type);
            reveal_strlit("[");
            reveal_strlit(" x i8]");
            lemma_dec((byte_len(pool[k - 1]) + 1) as nat);
            lemma_no_v(t);
        }
        lemma_string_name((k - 1) as nat);
        assert(wordless(constant_text(pool[k - 1])));
        let t0 = s.out;
        lemma_word(t0, n, " = private unnamed_addr constant "@);
        let t1 = t0 + n + " = private unnamed_addr constant "@;
        lemma_word(t1, t, " c\""@);
        let t2 = t1 + t + " c\""@;
        lemma_word(t2, constant_text(pool[k - 1]), "\\00\"\n"@);
        let t3 = t2 + constant_text(pool[k - 1]) + "\\00\"\n"@;
    }
}

/// Static instructions call no runtime function.
proof fn lemma_no_calls(acc: Seq<Seq<char>>, ns: Seq<Insn>, k: nat)
    requires
        forall|i: int| 0 <= i < ns.len() ==> static_insn(#[trigger] ns[i]),
    ensures
        runtime_calls(acc, ns, k) == acc,
    decreases k,
{
    if k > 0 && k <= ns.len() {
        lemma_no_calls(acc, ns, (k - 1) as nat);
        assert(static_insn(ns[k - 1]));
    }
}

/// Static functions call no runtime function.
proof fn lemma_no_module_calls(fs: Seq<IrFn>, k: nat)
    requires
        forall|i: int| 0 <= i < fs.len() ==> static_fn(#[trigger] fs[i]),
    ensures
        module_calls(fs, k).len() == 0,
    decreases k,
{
    if k > 0 && k <= fs.len() {
        lemma_no_module_calls(fs, (k - 1) as nat);
        lemma_no_calls(module_calls(fs, (k - 1) as nat), fs[k - 1].body, fs[k - 1].body.len());
    }
}

/// A module whose types are all known is emitted without dynamic values: no
/// runtime function is declared, and the text nowhere mentions the type of
/// dynamic values or a function on them.
pub proof fn law_static_code_has_no_dynamic_values(m: IrMod)
    requires
        module_ok(m),
        static_module(m),
    ensures
        !occurs(module_state(fresh_ll(), m).out, "vredrs_value"@),
        declared(m).len() == 0,
{
    lemma_literals();
    lemma_no_module_calls(m.functions, m.functions.len());
    reveal(module_start);
    let st = fresh_ll();
    assert(closed_text(st.out)) by {
        reveal(closed_text);
        lemma_short(st.out);
    }
    assert(st.out =~= Seq::<char>::empty());
    let t0 = Seq::<char>::empty();
    lemma_literal(t0, "; Vredrs LLVM IR (gradual: static + dynamic)\n"@);
    let t1 = t0 + "; Vredrs LLVM IR (gradual: static + dynamic)\n"@;
    lemma_strings(st.with(t1), m.string_pool, m.string_pool.len());
    lemma_fns(module_start(st, m), m.functions, m.functions.len());
    reveal(closed_text);
    reveal(wordless);
}

} // verus!
