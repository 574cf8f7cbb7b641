//! What the models and generators of the native backends have in common:
//! compiled functions, declarations by name, lexical surroundings, and the
//! parts of an assembly file that do not depend on the instruction set.

use vstd::hash_map::StringHashMap;
use vstd::prelude::*;
use crate::ast::{Annotation, DtorBlock, Expr, FnDef, FnParam, StructDef, TopLevel};
use crate::cstar::raw::common::{
    down8, field_offset, parts_text, string_parts_text, substitute_asm_template, substituted,
    VarLoc,
};
use crate::text::{
    asm_escaped, cat, dec, lines, lines_of, numbered, push_asm_escaped, push_dec, same, text,
    TextList, trim, trimmed,
};

verus! {

/// A compiled function: its body and what its prologue and epilogue need.
pub struct Func {
    pub name: Seq<char>,
    pub code: Seq<char>,
    pub is_main: bool,
    pub saved: usize,
    pub frame: int,
    pub epilogue: Seq<char>,
}

/// What stays fixed while a program is compiled: the architecture name and
/// the declarations by name.
pub struct Env<'a> {
    pub arch: Seq<char>,
    pub fns: Map<Seq<char>, &'a FnDef>,
    pub dtors: Map<Seq<char>, &'a DtorBlock>,
    pub structs: Map<Seq<char>, &'a StructDef>,
    pub aligns: Seq<(Seq<char>, u64)>,
}

impl<'a> Env<'a> {
    /// Whether the target is the 64-bit architecture.
    pub open spec fn a64(self) -> bool {
        self.arch == "aarch64"@
    }
}

/// The lexical surroundings of a statement: how many more calls may be
/// inlined, and the continue and break targets of the enclosing loops.
pub struct Ctx {
    pub depth: nat,
    pub loops: Seq<(Seq<char>, Seq<char>)>,
}

/// A label: a prefix and a number.
#[verifier::opaque]
pub open spec fn lab(prefix: Seq<char>, n: usize) -> Seq<char> {
    prefix + dec(n as nat)
}

/// The label of string constant `n`.
#[verifier::opaque]
pub open spec fn str_label(n: nat) -> Seq<char> {
    ".str"@ + dec(n)
}

/// The alignment that `@align` gives the struct `n`; eight where it has none.
pub open spec fn align_of(aligns: Seq<(Seq<char>, u64)>, n: Seq<char>, k: int) -> u64
    decreases aligns.len() - k,
{
    if k < 0 || k >= aligns.len() {
        8
    } else if aligns[k].0 == n {
        aligns[k].1
    } else {
        align_of(aligns, n, k + 1)
    }
}

/// The offset of a struct field; zero where the struct or the field is not
/// known.
pub open spec fn offset_of(env: Env, s: Seq<char>, f: Seq<char>) -> i64 {
    if env.structs.contains_key(s) {
        field_offset(env.structs[s].fields@, align_of(env.aligns, s, 0) as i64 as int, f) as i64
    } else {
        0
    }
}

/// The message of a failed static assertion.
#[verifier::opaque]
pub open spec fn assert_message(args: Seq<Expr>) -> Seq<char> {
    "static_assert failed: "@ + (if args.len() >= 2 && args[1] is String_ {
        parts_text(args[1]->String__0.parts@)
    } else {
        "static assertion failed"@
    })
}

/// The names that are compiled to fixed instruction sequences.
pub open spec fn is_builtin(n: Seq<char>) -> bool {
    n == "memcpy"@ || n == "memset"@ || n == "spin_lock"@ || n == "spin_unlock"@ || n == "tls_get"@
        || n == "tls_set"@ || n == "offsetof"@ || n == "static_assert"@ || n == "cycle_counter"@
}

/// The locations behind an inlined call: those of the first `k` parameters
/// are what they were in `orig`.
#[verifier::opaque]
pub open spec fn restored(
    vars: Map<Seq<char>, VarLoc>,
    orig: Map<Seq<char>, VarLoc>,
    params: Seq<FnParam>,
    k: nat,
) -> Map<Seq<char>, VarLoc>
    decreases k,
{
    if k == 0 || k > params.len() {
        vars
    } else {
        let prev = restored(vars, orig, params, (k - 1) as nat);
        let n = params[k - 1].name.name@;
        if orig.contains_key(n) {
            prev.insert(n, orig[n])
        } else {
            prev.remove(n)
        }
    }
}

/// Some function is `main`.
pub open spec fn any_main(funcs: Seq<Func>) -> bool {
    exists|i: int| 0 <= i < funcs.len() && #[trigger] funcs[i].is_main
}

/// `b` goes on from `a`.
#[verifier::opaque]
pub open spec fn grown<T>(a: Seq<T>, b: Seq<T>) -> bool {
    a.len() <= b.len() && forall|i: int| 0 <= i < a.len() ==> #[trigger] a[i] == b[i]
}

/// A sequence goes on from itself.
pub broadcast proof fn lemma_grown_self<T>(a: Seq<T>)
    ensures
        #[trigger] grown(a, a),
{
    reveal(grown);
}

/// A longer text goes on from its front.
pub broadcast proof fn lemma_grown_add<T>(a: Seq<T>, x: Seq<T>)
    ensures
        grown(a, #[trigger] (a + x)),
{
    reveal(grown);
}

/// A sequence with one more element goes on from the one without.
pub broadcast proof fn lemma_grown_push<T>(a: Seq<T>, x: T)
    ensures
        grown(a, #[trigger] a.push(x)),
{
    reveal(grown);
}

/// Going on is transitive.
pub broadcast proof fn lemma_grown_trans<T>(a: Seq<T>, b: Seq<T>, c: Seq<T>)
    requires
        #[trigger] grown(a, b),
        #[trigger] grown(b, c),
    ensures
        grown(a, c),
{
    reveal(grown);
}

pub broadcast group group_grown {
    lemma_grown_self,
    lemma_grown_add,
    lemma_grown_push,
    lemma_grown_trans,
}

/// Every variable in a register has one of its own, among the first `next`.
pub open spec fn own_registers(vars: Map<Seq<char>, VarLoc>, next: usize) -> bool {
    &&& forall|n: Seq<char>| #[trigger]
        vars.contains_key(n) ==> (vars[n] matches VarLoc::Reg(i) ==> i < next)
    &&& forall|n: Seq<char>, m: Seq<char>|
        #![trigger vars.contains_key(n), vars.contains_key(m)]
        vars.contains_key(n) && vars.contains_key(m) && n != m && vars[n] is Reg ==> vars[n]
            != vars[m]
}

/// A variable in a register was in it before, or the register was not in use.
pub open spec fn new_registers(
    a: Map<Seq<char>, VarLoc>,
    used: usize,
    b: Map<Seq<char>, VarLoc>,
) -> bool {
    forall|n: Seq<char>| #[trigger]
        b.contains_key(n) ==> (b[n] matches VarLoc::Reg(i) ==> i >= used || (a.contains_key(n)
            && a[n] == b[n]))
}

/// The step from the locations `a` to the locations `b` gives only registers
/// that were not in use.
#[verifier::opaque]
pub open spec fn settled(
    a: Map<Seq<char>, VarLoc>,
    used: usize,
    b: Map<Seq<char>, VarLoc>,
    next: usize,
) -> bool {
    used <= next && new_registers(a, used, b)
}

/// No location changes.
pub broadcast proof fn lemma_settled_self(a: Map<Seq<char>, VarLoc>, used: usize, next: usize)
    requires
        used <= next,
    ensures
        #[trigger] settled(a, used, a, next),
{
    reveal(settled);
}

/// One step after another.
pub broadcast proof fn lemma_settled_trans(
    a: Map<Seq<char>, VarLoc>,
    used: usize,
    b: Map<Seq<char>, VarLoc>,
    next: usize,
    c: Map<Seq<char>, VarLoc>,
    last: usize,
)
    requires
        #[trigger] settled(a, used, b, next),
        #[trigger] settled(b, next, c, last),
    ensures
        settled(a, used, c, last),
{
    reveal(settled);
    assert forall|n: Seq<char>| #[trigger] c.contains_key(n) implies (c[n] matches VarLoc::Reg(i)
        ==> i >= used || (a.contains_key(n) && a[n] == c[n])) by {
        if b.contains_key(n) {
        }
    }
}

/// A variable gets an unused register.
pub broadcast proof fn lemma_settled_register(
    a: Map<Seq<char>, VarLoc>,
    used: usize,
    n: Seq<char>,
    i: usize,
    next: usize,
)
    requires
        used <= i < next,
    ensures
        #[trigger] settled(a, used, a.insert(n, VarLoc::Reg(i)), next),
{
    reveal(settled);
}

/// A variable gets a stack slot.
pub broadcast proof fn lemma_settled_slot(
    a: Map<Seq<char>, VarLoc>,
    used: usize,
    n: Seq<char>,
    o: i32,
)
    ensures
        #[trigger] settled(a, used, a.insert(n, VarLoc::Stack(o)), used),
{
    reveal(settled);
}

pub broadcast group group_settled {
    lemma_settled_self,
    lemma_settled_trans,
    lemma_settled_register,
    lemma_settled_slot,
}

/// Every variable of `a` has a location in `b`, and the same one unless its name
/// is in `p`.
#[verifier::opaque]
pub open spec fn kept(
    a: Map<Seq<char>, VarLoc>,
    b: Map<Seq<char>, VarLoc>,
    p: Set<Seq<char>>,
) -> bool {
    forall|n: Seq<char>| #[trigger]
        a.contains_key(n) ==> b.contains_key(n) && (p.contains(n) || b[n] == a[n])
}

/// No location changes.
pub broadcast proof fn lemma_kept_self(a: Map<Seq<char>, VarLoc>, p: Set<Seq<char>>)
    ensures
        #[trigger] kept(a, a, p),
{
    reveal(kept);
}

/// One step after another.
pub broadcast proof fn lemma_kept_trans(
    a: Map<Seq<char>, VarLoc>,
    b: Map<Seq<char>, VarLoc>,
    c: Map<Seq<char>, VarLoc>,
    p: Set<Seq<char>>,
)
    requires
        #[trigger] kept(a, b, p),
        #[trigger] kept(b, c, p),
    ensures
        kept(a, c, p),
{
    reveal(kept);
}

/// A variable gets a location.
pub broadcast proof fn lemma_kept_insert(
    a: Map<Seq<char>, VarLoc>,
    n: Seq<char>,
    l: VarLoc,
    p: Set<Seq<char>>,
)
    requires
        a.contains_key(n) ==> p.contains(n),
    ensures
        #[trigger] kept(a, a.insert(n, l), p),
{
    reveal(kept);
}

pub broadcast group group_kept {
    lemma_kept_self,
    lemma_kept_trans,
    lemma_kept_insert,
}

/// What is kept for all names is kept for all but some.
pub(crate) proof fn lemma_kept_but(
    a: Map<Seq<char>, VarLoc>,
    b: Map<Seq<char>, VarLoc>,
    p: Set<Seq<char>>,
)
    requires
        kept(a, b, Set::empty()),
    ensures
        kept(a, b, p),
{
    reveal(kept);
}

/// The names of parameters.
pub open spec fn names_of(params: Seq<FnParam>) -> Set<Seq<char>> {
    Set::new(|n: Seq<char>| exists|i: int| 0 <= i < params.len() && (#[trigger] params[i]).name.name@ == n)
}

/// Every variable in a stack slot has one of its own, of eight bytes, at or
/// above `off`.
pub open spec fn own_slots(vars: Map<Seq<char>, VarLoc>, off: i32) -> bool {
    &&& forall|n: Seq<char>| #[trigger]
        vars.contains_key(n) ==> (vars[n] matches VarLoc::Stack(o) ==> off <= o)
    &&& forall|n: Seq<char>, m: Seq<char>|
        #![trigger vars.contains_key(n), vars.contains_key(m)]
        vars.contains_key(n) && vars.contains_key(m) && n != m ==> slots_apart(vars[n], vars[m])
}

/// The locations are not stack slots that overlap.
pub open spec fn slots_apart(a: VarLoc, b: VarLoc) -> bool {
    match (a, b) {
        (VarLoc::Stack(x), VarLoc::Stack(y)) => x + 8 <= y || y + 8 <= x,
        _ => true,
    }
}

/// A variable in a stack slot was in it before, or the slot is below `off`.
pub open spec fn new_slots(
    a: Map<Seq<char>, VarLoc>,
    off: i32,
    b: Map<Seq<char>, VarLoc>,
) -> bool {
    forall|n: Seq<char>| #[trigger]
        b.contains_key(n) ==> (b[n] matches VarLoc::Stack(o) ==> o + 8 <= off || (a.contains_key(n)
            && a[n] == b[n]))
}

/// The step from the locations `a` to the locations `b` puts no two variables
/// into one stack slot: where every variable in a slot has one of its own before
/// it, so it is behind it, and only slots below those in use are given, unless
/// the range of offsets is used up.
#[verifier::opaque]
pub open spec fn stacked(
    a: Map<Seq<char>, VarLoc>,
    used: i32,
    b: Map<Seq<char>, VarLoc>,
    off: i32,
) -> bool {
    &&& off <= used
    &&& own_slots(a, used) && off > i32::MIN ==> own_slots(b, off) && new_slots(a, used, b)
}

/// No location changes.
pub broadcast proof fn lemma_stacked_self(a: Map<Seq<char>, VarLoc>, used: i32, off: i32)
    requires
        off <= used,
    ensures
        #[trigger] stacked(a, used, a, off),
{
    reveal(stacked);
}

/// One step after another.
pub broadcast proof fn lemma_stacked_trans(
    a: Map<Seq<char>, VarLoc>,
    used: i32,
    b: Map<Seq<char>, VarLoc>,
    off: i32,
    c: Map<Seq<char>, VarLoc>,
    last: i32,
)
    requires
        #[trigger] stacked(a, used, b, off),
        #[trigger] stacked(b, off, c, last),
    ensures
        stacked(a, used, c, last),
{
    reveal(stacked);
    if own_slots(a, used) && last > i32::MIN {
        assert forall|n: Seq<char>| #[trigger]
            c.contains_key(n) implies (c[n] matches VarLoc::Stack(o) ==> o + 8 <= used || (
        a.contains_key(n) && a[n] == c[n])) by {
            if b.contains_key(n) {
            }
        }
    }
}

/// A variable gets a register.
pub broadcast proof fn lemma_stacked_register(
    a: Map<Seq<char>, VarLoc>,
    used: i32,
    n: Seq<char>,
    i: usize,
)
    ensures
        #[trigger] stacked(a, used, a.insert(n, VarLoc::Reg(i)), used),
{
    reveal(stacked);
    let b = a.insert(n, VarLoc::Reg(i));
    if own_slots(a, used) {
        assert forall|x: Seq<char>| #[trigger] b.contains_key(x) implies (
        b[x] matches VarLoc::Stack(o) ==> used <= o && a.contains_key(x) && a[x] == b[x]) by {
            if x != n {
                assert(a.contains_key(x));
            }
        }
        assert forall|x: Seq<char>, y: Seq<char>|
            #![trigger b.contains_key(x), b.contains_key(y)]
            b.contains_key(x) && b.contains_key(y) && x != y implies slots_apart(b[x], b[y]) by {
            if x != n && y != n {
                assert(a.contains_key(x) && a.contains_key(y));
            }
        }
    }
}

/// A variable gets the next stack slot.
pub broadcast proof fn lemma_stacked_slot(a: Map<Seq<char>, VarLoc>, used: i32, n: Seq<char>)
    ensures
        #[trigger] stacked(a, used, a.insert(n, VarLoc::Stack(down8(used))), down8(used)),
{
    reveal(stacked);
    let b = a.insert(n, VarLoc::Stack(down8(used)));
    if own_slots(a, used) && down8(used) > i32::MIN {
        assert forall|x: Seq<char>| #[trigger] b.contains_key(x) implies (
        b[x] matches VarLoc::Stack(o) ==> down8(used) <= o && (o + 8 <= used || (a.contains_key(x)
            && a[x] == b[x]))) by {
            if x != n {
                assert(a.contains_key(x));
            }
        }
        assert forall|x: Seq<char>, y: Seq<char>|
            #![trigger b.contains_key(x), b.contains_key(y)]
            b.contains_key(x) && b.contains_key(y) && x != y implies slots_apart(b[x], b[y]) by {
            if x != n {
                assert(a.contains_key(x));
            }
            if y != n {
                assert(a.contains_key(y));
            }
        }
    }
}

pub broadcast group group_stacked {
    lemma_stacked_self,
    lemma_stacked_trans,
    lemma_stacked_register,
    lemma_stacked_slot,
}

/// The locations of the parameters of an inlined call are what they were, and
/// the others are left alone.
proof fn lemma_restored(
    vars: Map<Seq<char>, VarLoc>,
    orig: Map<Seq<char>, VarLoc>,
    params: Seq<FnParam>,
    k: nat,
    n: Seq<char>,
)
    requires
        k <= params.len(),
    ensures
        ({
            let r = restored(vars, orig, params, k);
            let from = if exists|i: int|
                0 <= i < k && (#[trigger] params[i]).name.name@ == n {
                orig
            } else {
                vars
            };
            r.contains_key(n) == from.contains_key(n) && (r.contains_key(n) ==> r[n] == from[n])
        }),
    decreases k,
{
    reveal(restored);
    if k > 0 {
        lemma_restored(vars, orig, params, (k - 1) as nat, n);
        if params[k - 1].name.name@ != n {
            assert((exists|i: int| 0 <= i < k && (#[trigger] params[i]).name.name@ == n) == (exists|
                i: int,
            |
                0 <= i < k - 1 && (#[trigger] params[i]).name.name@ == n));
        }
    }
}

/// The end of an inlined call gives the parameters their locations back.
pub(crate) proof fn lemma_settled_restored(
    a: Map<Seq<char>, VarLoc>,
    used: usize,
    b: Map<Seq<char>, VarLoc>,
    next: usize,
    params: Seq<FnParam>,
)
    requires
        settled(a, used, b, next),
    ensures
        settled(a, used, restored(b, a, params, params.len()), next),
        settled(a, used, restored(b, a, params, params.len()), used),
{
    reveal(settled);
    let r = restored(b, a, params, params.len());
    assert forall|n: Seq<char>| #[trigger] r.contains_key(n) implies (r[n] matches VarLoc::Reg(i)
        ==> i >= used || (a.contains_key(n) && a[n] == r[n])) by {
        lemma_restored(b, a, params, params.len(), n);
        if b.contains_key(n) {
        }
    }
}

/// The end of an inlined call gives the parameters their locations back.
pub(crate) proof fn lemma_kept_restored(
    a: Map<Seq<char>, VarLoc>,
    b: Map<Seq<char>, VarLoc>,
    params: Seq<FnParam>,
)
    requires
        kept(a, b, names_of(params)),
    ensures
        kept(a, restored(b, a, params, params.len()), Set::empty()),
{
    reveal(kept);
    let r = restored(b, a, params, params.len());
    assert forall|n: Seq<char>| #[trigger] a.contains_key(n) implies r.contains_key(n) && r[n]
        == a[n] by {
        lemma_restored(b, a, params, params.len(), n);
        if !names_of(params).contains(n) {
        }
    }
}

/// The end of an inlined call gives the parameters their locations back.
pub(crate) proof fn lemma_stacked_restored(
    a: Map<Seq<char>, VarLoc>,
    used: i32,
    b: Map<Seq<char>, VarLoc>,
    off: i32,
    params: Seq<FnParam>,
)
    requires
        stacked(a, used, b, off),
    ensures
        stacked(a, used, restored(b, a, params, params.len()), off),
{
    reveal(stacked);
    let r = restored(b, a, params, params.len());
    if own_slots(a, used) && off > i32::MIN {
        assert forall|n: Seq<char>| #[trigger] r.contains_key(n) implies (
        r[n] matches VarLoc::Stack(o) ==> off <= o && (o + 8 <= used || (a.contains_key(n) && a[n]
            == r[n]))) by {
            lemma_restored(b, a, params, params.len(), n);
            if a.contains_key(n) {
            }
            if b.contains_key(n) {
            }
        }
        assert forall|n: Seq<char>, m: Seq<char>|
            #![trigger r.contains_key(n), r.contains_key(m)]
            r.contains_key(n) && r.contains_key(m) && n != m implies slots_apart(r[n], r[m]) by {
            lemma_restored(b, a, params, params.len(), n);
            lemma_restored(b, a, params, params.len(), m);
            if a.contains_key(n) {
            }
            if a.contains_key(m) {
            }
            if b.contains_key(n) {
            }
            if b.contains_key(m) {
            }
        }
    }
}

/// A `main` stays when a function is added.
pub proof fn lemma_any_main_push(funcs: Seq<Func>, f: Func)
    ensures
        any_main(funcs) ==> any_main(funcs.push(f)),
        f.is_main ==> any_main(funcs.push(f)),
{
    let all = funcs.push(f);
    if any_main(funcs) {
        let i = choose|i: int| 0 <= i < funcs.len() && #[trigger] funcs[i].is_main;
        assert(all[i].is_main);
    }
    if f.is_main {
        assert(all[funcs.len() as int].is_main);
    }
}

/// An alignment list with the alignment of `n` set to `v`.
pub open spec fn set_align(aligns: Seq<(Seq<char>, u64)>, n: Seq<char>, v: u64, k: int) -> Seq<
    (Seq<char>, u64),
>
    decreases aligns.len() - k,
{
    if k < 0 || k >= aligns.len() {
        aligns.push((n, v))
    } else if aligns[k].0 == n {
        aligns.update(k, (n, v))
    } else {
        set_align(aligns, n, v, k + 1)
    }
}

/// The alignment that an annotation asks for.
pub open spec fn align_value(a: Annotation) -> Option<u64> {
    if a.name@ == "align"@ && a.arguments@.len() > 0 {
        match a.arguments@[0].value {
            Expr::Integer(i) => if i.value > 0 {
                Some(i.value as u64)
            } else {
                None
            },
            _ => None,
        }
    } else {
        None
    }
}

/// The alignments behind the first `k` annotations of the struct `n`.
#[verifier::opaque]
pub open spec fn note_aligns(
    aligns: Seq<(Seq<char>, u64)>,
    n: Seq<char>,
    anns: Seq<Annotation>,
    k: nat,
) -> Seq<(Seq<char>, u64)>
    decreases k,
{
    if k == 0 || k > anns.len() {
        aligns
    } else {
        let prev = note_aligns(aligns, n, anns, (k - 1) as nat);
        match align_value(anns[k - 1]) {
            Some(v) => set_align(prev, n, v, 0),
            None => prev,
        }
    }
}

/// The surroundings with the first `k` declarations noted by name; a later
/// declaration of a name stands in place of an earlier one.
pub open spec fn noted<'a>(env: Env<'a>, decls: Seq<&'a TopLevel>, k: nat) -> Env<'a>
    decreases k,
{
    if k == 0 || k > decls.len() {
        env
    } else {
        let prev = noted(env, decls, (k - 1) as nat);
        match *decls[k - 1] {
            TopLevel::FnDef(f) => Env { fns: prev.fns.insert(f.name.name@, &f), ..prev },
            TopLevel::DtorBlock(d) => Env { dtors: prev.dtors.insert(d.target.name@, &d), ..prev },
            TopLevel::StructDef(s) => Env {
                structs: prev.structs.insert(s.name.name@, &s),
                aligns: note_aligns(
                    prev.aligns,
                    s.name.name@,
                    s.annotations@,
                    s.annotations@.len(),
                ),
                ..prev
            },
            _ => prev,
        }
    }
}

/// The first `k` string constants.
#[verifier::opaque]
pub open spec fn strs_text(out: Seq<char>, strs: Seq<Seq<char>>, k: nat) -> Seq<char>
    decreases k,
{
    if k == 0 || k > strs.len() {
        out
    } else {
        strs_text(out, strs, (k - 1) as nat) + ".str"@ + dec((k - 1) as nat) + ":\n    .asciz \""@
            + asm_escaped(strs[k - 1]) + "\"\n"@
    }
}

/// The comments on the destructors among the first `k` declarations.
#[verifier::opaque]
pub open spec fn dtor_comments(decls: Seq<&TopLevel>, k: nat) -> Seq<char>
    decreases k,
{
    if k == 0 || k > decls.len() {
        Seq::empty()
    } else {
        let prev = dtor_comments(decls, (k - 1) as nat);
        match *decls[k - 1] {
            TopLevel::DtorBlock(d) => prev + "# dtor for type "@ + d.target.name@
                + " (emitted at function exits via RAII heuristic)\n"@,
            _ => prev,
        }
    }
}

/// The lines of an inline assembly template, each indented, without blank
/// lines; operand references are replaced where `ops` is given.
#[verifier::opaque]
pub open spec fn template_lines(
    ls: Seq<Seq<char>>,
    ops: Option<Seq<Seq<char>>>,
    k: nat,
) -> Seq<char>
    decreases k,
{
    if k == 0 || k > ls.len() {
        Seq::empty()
    } else {
        let prev = template_lines(ls, ops, (k - 1) as nat);
        let l = trimmed(ls[k - 1]);
        if l.len() == 0 {
            prev
        } else {
            prev + "    "@ + (match ops {
                Some(o) => substituted(l, o, 0),
                None => l,
            }) + "\n"@
        }
    }
}

/// The number of elements of a list literal.
pub open spec fn list_len(e: Expr) -> nat {
    match e {
        Expr::List(l) => l.elements@.len(),
        _ => 0,
    }
}

/// The lesser of three and the number of arguments.
pub open spec fn three_args(args: Seq<Expr>) -> nat {
    if args.len() < 3 {
        args.len()
    } else {
        3
    }
}

/// The surroundings of a new generator.
pub open spec fn fresh_env<'a>(arch: Seq<char>) -> Env<'a> {
    Env {
        arch,
        fns: Map::empty(),
        dtors: Map::empty(),
        structs: Map::empty(),
        aligns: Seq::empty(),
    }
}

/// The bit pattern of a float as a signed word.
pub open spec fn float_word(bits: u64) -> i64 {
    bits as i64
}

/// A label: a prefix and a number.
pub fn label(prefix: &str, n: usize) -> (r: String)
    ensures
        r@ == lab(prefix@, n),
{
    proof {
        reveal(lab);
    }
    numbered(prefix, n as u64)
}

/// The label of string constant `n`.
pub fn str_name(n: usize) -> (r: String)
    ensures
        r@ == str_label(n as nat),
{
    proof {
        reveal(str_label);
    }
    numbered(".str", n as u64)
}

/// Appends the lines of an inline assembly template, with operand references
/// replaced where `ops` is given.
pub fn emit_template(out: &mut String, template: &str, ops: Option<&TextList>)
    ensures
        final(out)@ == old(out)@ + template_lines(
            lines(template@),
            match ops {
                Some(o) => Some(o@),
                None => None,
            },
            lines(template@).len(),
        ),
{
    proof {
        reveal(template_lines);
    }
    let ls = lines_of(template);
    let ghost o: Option<Seq<Seq<char>>> = match ops {
        Some(x) => Some(x@),
        None => None,
    };
    let mut k: usize = 0;
    assert(out@ =~= old(out)@ + template_lines(ls@, o, 0));
    while k < ls.len()
        invariant
            k <= ls@.len(),
            o == (match ops {
                Some(x) => Some(x@),
                None => None,
            }),
            out@ == old(out)@ + template_lines(ls@, o, k as nat),
        decreases ls@.len() - k,
    {
        proof {
            reveal(template_lines);
        }
        let l = trim(ls.get(k));
        if !l.as_str().is_empty() {
            out.append("    ");
            match ops {
                Some(x) => {
                    let t = substitute_asm_template(l.as_str(), x);
                    out.append(t.as_str());
                },
                None => {
                    out.append(l.as_str());
                },
            }
            out.append("\n");
        }
        k = k + 1;
        assert(out@ =~= old(out)@ + template_lines(ls@, o, k as nat));
    }
}

/// Whether `n` is compiled to a fixed instruction sequence.
pub fn builtin_name(n: &str) -> (r: bool)
    ensures
        r == is_builtin(n@),
{
    same(n, "memcpy") || same(n, "memset") || same(n, "spin_lock") || same(n, "spin_unlock") || same(
        n,
        "tls_get",
    ) || same(n, "tls_set") || same(n, "offsetof") || same(n, "static_assert") || same(
        n,
        "cycle_counter",
    )
}

/// The message of a failed static assertion.
pub fn assert_text(args: &Vec<Expr>) -> (r: String)
    ensures
        r@ == assert_message(args@),
{
    proof {
        reveal(assert_message);
    }
    if args.len() >= 2 {
        match &args[1] {
            Expr::String_(s) => {
                let t = string_parts_text(&s.parts);
                return cat("static_assert failed: ", t.as_str());
            },
            _ => {},
        }
    }
    cat("static_assert failed: ", "static assertion failed")
}

/// The alignment that an annotation asks for.
pub fn annotated_align(ann: &Annotation) -> (r: Option<u64>)
    ensures
        r == align_value(*ann),
{
    if same(ann.name.as_str(), "align") && ann.arguments.len() > 0 {
        match &ann.arguments[0].value {
            Expr::Integer(i) => {
                if i.value > 0 {
                    return Some(i.value as u64);
                }
            },
            _ => {},
        }
    }
    None
}

/// A compiled function body, and what its prologue and epilogue need.
pub struct CompiledFn {
    pub name: String,
    pub code: String,
    pub is_main: bool,
    pub saved: usize,
    pub frame: u64,
    pub epilogue: String,
}

impl View for CompiledFn {
    type V = Func;

    open spec fn view(&self) -> Func {
        Func {
            name: self.name@,
            code: self.code@,
            is_main: self.is_main,
            saved: self.saved,
            frame: self.frame as int,
            epilogue: self.epilogue@,
        }
    }
}

/// The functions compiled so far.
pub struct FnList {
    items: Vec<CompiledFn>,
}

impl View for FnList {
    type V = Seq<Func>;

    closed spec fn view(&self) -> Seq<Func> {
        self.items@.map_values(|f: CompiledFn| f@)
    }
}

impl FnList {
    /// The empty list.
    pub fn new() -> (r: Self)
        ensures
            r@ == Seq::<Func>::empty(),
    {
        let r = FnList { items: Vec::new() };
        assert(r@ =~= Seq::<Func>::empty());
        r
    }

    /// The number of functions.
    pub fn len(&self) -> (n: usize)
        ensures
            n == self@.len(),
    {
        self.items.len()
    }

    /// Function `i`.
    pub fn get(&self, i: usize) -> (r: &CompiledFn)
        requires
            i < self@.len(),
        ensures
            r@ == self@[i as int],
    {
        &self.items[i]
    }

    /// Adds a function.
    pub fn push(&mut self, f: CompiledFn)
        ensures
            final(self)@ == old(self)@.push(f@),
    {
        self.items.push(f);
        assert(self@ =~= old(self)@.push(f@));
    }

    /// Whether some function is `main`.
    pub fn has_main(&self) -> (r: bool)
        ensures
            r == any_main(self@),
    {
        let mut i: usize = 0;
        while i < self.items.len()
            invariant
                i <= self.items@.len(),
                forall|j: int| 0 <= j < i ==> !(#[trigger] self@[j]).is_main,
            decreases self.items@.len() - i,
        {
            if self.items[i].is_main {
                assert(self@[i as int].is_main);
                return true;
            }
            assert(!self@[i as int].is_main);
            i = i + 1;
        }
        false
    }
}

/// The alignments that `@align` annotations ask for, by struct name.
pub struct AlignList {
    items: Vec<(String, u64)>,
}

impl View for AlignList {
    type V = Seq<(Seq<char>, u64)>;

    closed spec fn view(&self) -> Seq<(Seq<char>, u64)> {
        self.items@.map_values(|p: (String, u64)| (p.0@, p.1))
    }
}

impl AlignList {
    /// The empty list.
    pub fn new() -> (r: Self)
        ensures
            r@ == Seq::<(Seq<char>, u64)>::empty(),
    {
        let r = AlignList { items: Vec::new() };
        assert(r@ =~= Seq::<(Seq<char>, u64)>::empty());
        r
    }

    /// The number of aligned structs.
    pub fn len(&self) -> (n: usize)
        ensures
            n == self@.len(),
    {
        self.items.len()
    }

    /// The name of aligned struct `i`.
    pub fn name(&self, i: usize) -> (r: &str)
        requires
            i < self@.len(),
        ensures
            r@ == self@[i as int].0,
    {
        self.items[i].0.as_str()
    }

    /// The alignment of aligned struct `i`.
    pub fn value(&self, i: usize) -> (r: u64)
        requires
            i < self@.len(),
        ensures
            r == self@[i as int].1,
    {
        self.items[i].1
    }

    /// The alignment of the struct `n`; eight where it has none.
    pub fn get(&self, n: &str) -> (r: u64)
        ensures
            r == align_of(self@, n@, 0),
    {
        let mut k: usize = 0;
        while k < self.len()
            invariant
                k <= self@.len(),
                align_of(self@, n@, 0) == align_of(self@, n@, k as int),
            decreases self@.len() - k,
        {
            if same(self.name(k), n) {
                return self.value(k);
            }
            k = k + 1;
        }
        8
    }

    /// Sets the alignment of the struct `n`.
    pub fn set(&mut self, n: &str, v: u64)
        ensures
            final(self)@ == set_align(old(self)@, n@, v, 0),
    {
        let mut k: usize = 0;
        while k < self.len()
            invariant
                k <= self@.len(),
                self@ == old(self)@,
                set_align(old(self)@, n@, v, 0) == set_align(old(self)@, n@, v, k as int),
            decreases self@.len() - k,
        {
            if same(self.name(k), n) {
                self.items.set(k, (text(n), v));
                assert(self@ =~= old(self)@.update(k as int, (n@, v)));
                return;
            }
            k = k + 1;
        }
        self.items.push((text(n), v));
        assert(self@ =~= old(self)@.push((n@, v)));
    }
}

/// The view of an optional text.
pub open spec fn opt_text(o: Option<String>) -> Option<Seq<char>> {
    match o {
        Some(s) => Some(s@),
        None => None,
    }
}

pub fn clone_opt(o: &Option<String>) -> (r: Option<String>)
    ensures
        opt_text(r) == opt_text(*o),
{
    match o {
        Some(s) => Some(s.clone()),
        None => None,
    }
}

/// `saved` holds the locations in `vars` of the parameters.
pub open spec fn saved_matches(
    saved: Seq<Option<VarLoc>>,
    vars: Map<Seq<char>, VarLoc>,
    params: Seq<FnParam>,
) -> bool {
    forall|i: int|
        0 <= i < params.len() ==> (#[trigger] saved[i]) == (if vars.contains_key(
            params[i].name.name@,
        ) {
            Some(vars[params[i].name.name@])
        } else {
            None::<VarLoc>
        })
}

/// The locations of the parameters.
pub fn save_params(vars: &StringHashMap<VarLoc>, params: &Vec<FnParam>) -> (r: Vec<Option<VarLoc>>)
    ensures
        r@.len() == params@.len(),
        saved_matches(r@, vars@, params@),
{
    let mut out: Vec<Option<VarLoc>> = Vec::new();
    let mut i: usize = 0;
    while i < params.len()
        invariant
            i <= params@.len(),
            out@.len() == i,
            forall|j: int|
                0 <= j < i ==> (#[trigger] out@[j]) == (if vars@.contains_key(
                    params@[j].name.name@,
                ) {
                    Some(vars@[params@[j].name.name@])
                } else {
                    None::<VarLoc>
                }),
        decreases params@.len() - i,
    {
        match vars.get(params[i].name.name.as_str()) {
            Some(l) => {
                out.push(Some(*l));
            },
            None => {
                out.push(None);
            },
        }
        i = i + 1;
    }
    out
}

/// Sets the locations of the parameters back to what was saved.
pub(crate) fn restore_params(
    vars: &mut StringHashMap<VarLoc>,
    params: &Vec<FnParam>,
    saved: &Vec<Option<VarLoc>>,
    Ghost(orig): Ghost<Map<Seq<char>, VarLoc>>,
)
    requires
        saved@.len() == params@.len(),
        saved_matches(saved@, orig, params@),
    ensures
        final(vars)@ == restored(old(vars)@, orig, params@, params@.len()),
{
    proof {
        reveal(restored);
    }
    let mut i: usize = 0;
    while i < params.len()
        invariant
            i <= params@.len(),
            saved@.len() == params@.len(),
            saved_matches(saved@, orig, params@),
            vars@ == restored(old(vars)@, orig, params@, i as nat),
        decreases params@.len() - i,
    {
        proof {
            reveal(restored);
        }
        match &saved[i] {
            Some(l) => {
                vars.insert(params[i].name.name.clone(), *l);
            },
            None => {
                vars.remove(params[i].name.name.as_str());
            },
        }
        i = i + 1;
    }
}

/// The view of a compilation result.
pub open spec fn result_text(r: Result<String, String>) -> Result<Seq<char>, Seq<char>> {
    match r {
        Ok(t) => Ok(t@),
        Err(e) => Err(e@),
    }
}

/// The comments on the destructors of a program.
pub fn dtor_comment_text(decls: &Vec<&TopLevel>) -> (r: String)
    ensures
        r@ == dtor_comments(decls@, decls@.len()),
{
    proof {
        reveal(dtor_comments);
    }
    let mut out = String::new();
    let mut k: usize = 0;
    while k < decls.len()
        invariant
            k <= decls@.len(),
            out@ == dtor_comments(decls@, k as nat),
        decreases decls@.len() - k,
    {
        proof {
            reveal(dtor_comments);
        }
        match decls[k] {
            TopLevel::DtorBlock(d) => {
                out.append("# dtor for type ");
                out.append(d.target.name.as_str());
                out.append(" (emitted at function exits via RAII heuristic)\n");
            },
            _ => {},
        }
        k = k + 1;
    }
    out
}

/// Appends the string constants.
pub fn emit_strings(out: &mut String, strs: &TextList)
    ensures
        final(out)@ == strs_text(old(out)@, strs@, strs@.len()),
{
    proof {
        reveal(strs_text);
    }
    let mut k: usize = 0;
    while k < strs.len()
        invariant
            k <= strs@.len(),
            out@ == strs_text(old(out)@, strs@, k as nat),
        decreases strs@.len() - k,
    {
        proof {
            reveal(strs_text);
        }
        out.append(".str");
        push_dec(out, k as u64);
        out.append(":\n    .asciz \"");
        push_asm_escaped(out, strs.get(k));
        out.append("\"\n");
        k = k + 1;
    }
}

} // verus!
