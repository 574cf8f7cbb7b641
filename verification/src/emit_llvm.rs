//! LLVM text for IR modules.
//!
//! Static code uses `i64` and `double`; dynamic code passes `%vredrs_value` to
//! runtime functions; `Box` and `Unbox` stand at the border between the two.
//! Every virtual register has a stack slot.

use vstd::prelude::*;
use vstd::utf8::encode_utf8;
use crate::cstar::raw::common::{bump, bumped};
use crate::ir::{
    asm_args, AsmArg, BinOp, Cond, Insn, insns, ir_fns, IrFn, IrFunction, IrMod, IrModule, Operand,
    Opnd, opnds, opt_opnd, StaticInsn, TypeHint,
};
use crate::text::{
    alphanumeric, begins, byte_len, byte_length, cat, chars, contains, dec, hex, int_dec, int_text,
    is_letter_or_number, joined, law_sorted_texts_are_the_texts, numbered, occurs, push_dec,
    push_hex, push_int, push_wide, same, slice_text, sorted_set, starts_with, strictly_sorted, text,
    TextList, TextMap, texts, trim_end, trim_right,
};

verus! {

// ---------------------------------------------------------------------------
// Names and types
// ---------------------------------------------------------------------------

/// The LLVM type of a value.
pub open spec fn value_type(t: TypeHint) -> Seq<char> {
    match t {
        TypeHint::I64 | TypeHint::Bool | TypeHint::Ptr | TypeHint::Str => "i64"@,
        TypeHint::F64 => "double"@,
        TypeHint::Unit => "void"@,
        TypeHint::Dynamic | TypeHint::Mixed => "%vredrs_value"@,
    }
}

/// The LLVM type of a value.
fn llvm_type(t: TypeHint) -> (r: &'static str)
    ensures
        r@ == value_type(t),
{
    match t {
        TypeHint::I64 | TypeHint::Bool | TypeHint::Ptr | TypeHint::Str => "i64",
        TypeHint::F64 => "double",
        TypeHint::Unit => "void",
        TypeHint::Dynamic | TypeHint::Mixed => "%vredrs_value",
    }
}

/// The value that a function returns at its end, with its type.
pub open spec fn end_value(t: TypeHint) -> Seq<char> {
    match t {
        TypeHint::I64 | TypeHint::Bool | TypeHint::Ptr | TypeHint::Str => "i64 0"@,
        TypeHint::F64 => "double 0.0"@,
        TypeHint::Unit => "void"@,
        TypeHint::Dynamic | TypeHint::Mixed => "%vredrs_value zeroinitializer"@,
    }
}

/// The value that a function returns at its end, with its type.
fn default_value(t: TypeHint) -> (r: &'static str)
    ensures
        r@ == end_value(t),
{
    match t {
        TypeHint::I64 | TypeHint::Bool | TypeHint::Ptr | TypeHint::Str => "i64 0",
        TypeHint::F64 => "double 0.0",
        TypeHint::Unit => "void",
        TypeHint::Dynamic | TypeHint::Mixed => "%vredrs_value zeroinitializer",
    }
}

/// The LLVM predicate of a comparison.
pub open spec fn predicate(c: Cond, t: TypeHint) -> Seq<char> {
    if t == TypeHint::F64 {
        match c {
            Cond::Eq => "oeq"@,
            Cond::Ne => "one"@,
            Cond::Lt => "olt"@,
            Cond::Le => "ole"@,
            Cond::Gt => "ogt"@,
            Cond::Ge => "oge"@,
        }
    } else {
        match c {
            Cond::Eq => "eq"@,
            Cond::Ne => "ne"@,
            Cond::Lt => "slt"@,
            Cond::Le => "sle"@,
            Cond::Gt => "sgt"@,
            Cond::Ge => "sge"@,
        }
    }
}

/// The LLVM predicate of a comparison.
fn cond_to_llvm_pred(c: Cond, t: TypeHint) -> (r: &'static str)
    ensures
        r@ == predicate(c, t),
{
    if t == TypeHint::F64 {
        match c {
            Cond::Eq => "oeq",
            Cond::Ne => "one",
            Cond::Lt => "olt",
            Cond::Le => "ole",
            Cond::Gt => "ogt",
            Cond::Ge => "oge",
        }
    } else {
        match c {
            Cond::Eq => "eq",
            Cond::Ne => "ne",
            Cond::Lt => "slt",
            Cond::Le => "sle",
            Cond::Gt => "sgt",
            Cond::Ge => "sge",
        }
    }
}

/// The runtime function of a dynamic operation.
pub open spec fn runtime_op(op: BinOp) -> Seq<char> {
    match op {
        BinOp::SubDyn => "vredrs_value_sub"@,
        BinOp::MulDyn => "vredrs_value_mul"@,
        BinOp::DivDyn => "vredrs_value_div"@,
        BinOp::ModDyn => "vredrs_value_mod"@,
        BinOp::EqDyn => "vredrs_value_eq"@,
        BinOp::NeDyn => "vredrs_value_ne"@,
        BinOp::LtDyn => "vredrs_value_lt"@,
        BinOp::LeDyn => "vredrs_value_le"@,
        BinOp::GtDyn => "vredrs_value_gt"@,
        BinOp::GeDyn => "vredrs_value_ge"@,
        _ => "vredrs_value_add"@,
    }
}

/// The runtime function of a dynamic operation.
fn dyn_bin_func(op: BinOp) -> (r: &'static str)
    ensures
        r@ == runtime_op(op),
{
    match op {
        BinOp::SubDyn => "vredrs_value_sub",
        BinOp::MulDyn => "vredrs_value_mul",
        BinOp::DivDyn => "vredrs_value_div",
        BinOp::ModDyn => "vredrs_value_mod",
        BinOp::EqDyn => "vredrs_value_eq",
        BinOp::NeDyn => "vredrs_value_ne",
        BinOp::LtDyn => "vredrs_value_lt",
        BinOp::LeDyn => "vredrs_value_le",
        BinOp::GtDyn => "vredrs_value_gt",
        BinOp::GeDyn => "vredrs_value_ge",
        _ => "vredrs_value_add",
    }
}

/// The runtime function that boxes a static value.
pub open spec fn box_function(t: TypeHint) -> Option<Seq<char>> {
    match t {
        TypeHint::I64 => Some("vredrs_value_make_i64"@),
        TypeHint::F64 => Some("vredrs_value_make_f64"@),
        TypeHint::Bool => Some("vredrs_value_make_bool"@),
        _ => None,
    }
}

/// The runtime function that boxes a static value.
fn make_func(t: TypeHint) -> (r: Option<&'static str>)
    ensures
        match r {
            Some(s) => box_function(t) == Some(s@),
            None => box_function(t) is None,
        },
{
    match t {
        TypeHint::I64 => Some("vredrs_value_make_i64"),
        TypeHint::F64 => Some("vredrs_value_make_f64"),
        TypeHint::Bool => Some("vredrs_value_make_bool"),
        _ => None,
    }
}

/// The runtime function that unboxes a dynamic value.
#[verifier::opaque]
pub open spec fn unbox_function(t: TypeHint) -> Option<Seq<char>> {
    match t {
        TypeHint::I64 => Some("vredrs_value_get_i64"@),
        TypeHint::F64 => Some("vredrs_value_get_f64"@),
        TypeHint::Bool => Some("vredrs_value_get_bool"@),
        _ => None,
    }
}

/// The runtime function that unboxes a dynamic value.
fn get_func(t: TypeHint) -> (r: Option<&'static str>)
    ensures
        match r {
            Some(s) => unbox_function(t) == Some(s@),
            None => unbox_function(t) is None,
        },
{
    reveal(unbox_function);
    match t {
        TypeHint::I64 => Some("vredrs_value_get_i64"),
        TypeHint::F64 => Some("vredrs_value_get_f64"),
        TypeHint::Bool => Some("vredrs_value_get_bool"),
        _ => None,
    }
}

/// The character may stand in an LLVM name.
pub open spec fn in_name(c: char) -> bool {
    alphanumeric(c) || c == '_' || c == '-' || c == '.'
}

/// `n` with an underscore in place of everything that no LLVM name may hold.
pub open spec fn clean_name(n: Seq<char>) -> Seq<char> {
    Seq::new(
        n.len(),
        |i: int|
            if in_name(n[i]) {
                n[i]
            } else {
                '_'
            },
    )
}

/// An LLVM name made of `n`.
pub fn sanitize_name(n: &str) -> (r: String)
    ensures
        r@ == clean_name(n@),
{
    let v: Vec<char> = chars(n);
    let mut out = String::new();
    let mut i: usize = 0;
    while i < v.len()
        invariant
            i <= v.len(),
            v@ == n@,
            out@ == clean_name(n@).take(i as int),
        decreases v.len() - i,
    {
        let c: char = v[i];
        if is_letter_or_number(c) || c == '_' || c == '-' || c == '.' {
            out.push(c);
        } else {
            out.push('_');
        }
        i = i + 1;
        assert(out@ =~= clean_name(n@).take(i as int));
    }
    assert(clean_name(n@).take(i as int) =~= clean_name(n@));
    out
}

/// One byte inside an LLVM string constant.
#[verifier::opaque]
pub open spec fn byte_escape(b: u8) -> Seq<char> {
    if b == 0x5c {
        "\\\\"@
    } else if b < 0x20 || b >= 0x7f || b == 0x22 {
        "\\"@ + hex(b as nat, 2, true)
    } else {
        seq![b as char]
    }
}

/// The first `k` bytes inside an LLVM string constant.
#[verifier::opaque]
pub open spec fn bytes_escaped(bs: Seq<u8>, k: nat) -> Seq<char>
    decreases k,
{
    if k == 0 || k > bs.len() {
        Seq::empty()
    } else {
        bytes_escaped(bs, (k - 1) as nat) + byte_escape(bs[k - 1])
    }
}

/// A text inside an LLVM string constant.
pub open spec fn constant_text(s: Seq<char>) -> Seq<char> {
    bytes_escaped(encode_utf8(s), encode_utf8(s).len())
}

/// A text inside an LLVM string constant.
pub fn escape_llvm_str(s: &str) -> (r: String)
    ensures
        r@ == constant_text(s@),
{
    let bs = s.as_bytes();
    let mut out = String::new();
    let mut i: usize = 0;
    reveal(bytes_escaped);
    while i < bs.len()
        invariant
            i <= bs@.len(),
            out@ == bytes_escaped(bs@, i as nat),
        decreases bs@.len() - i,
    {
        reveal(bytes_escaped);
        reveal(byte_escape);
        let b: u8 = bs[i];
        let ghost before = out@;
        if b == 0x5c {
            out.append("\\\\");
        } else if b < 0x20 || b >= 0x7f || b == 0x22 {
            out.append("\\");
            push_hex(&mut out, b as u64, 2, true);
            assert(out@ =~= before + byte_escape(b));
        } else {
            out.push(b as char);
            assert(out@ =~= before + byte_escape(b));
        }
        i = i + 1;
    }
    out
}

/// One character of an assembly template inside an LLVM string.
pub open spec fn template_escape(c: char) -> Seq<char> {
    if c == '\\' {
        seq!['\\', '\\']
    } else if c == '"' {
        seq!['\\', '2', '2']
    } else {
        seq![c]
    }
}

/// An assembly template inside an LLVM string.
pub open spec fn template_escaped(s: Seq<char>) -> Seq<char>
    decreases s.len(),
{
    if s.len() == 0 {
        Seq::empty()
    } else {
        template_escaped(s.drop_last()) + template_escape(s.last())
    }
}

/// An assembly template inside an LLVM string.
fn escape_template(s: &str) -> (r: String)
    ensures
        r@ == template_escaped(s@),
{
    let v: Vec<char> = chars(s);
    let mut out = String::new();
    let mut i: usize = 0;
    assert(v@.take(0) =~= Seq::<char>::empty());
    while i < v.len()
        invariant
            i <= v.len(),
            v@ == s@,
            out@ == template_escaped(s@.take(i as int)),
        decreases v.len() - i,
    {
        assert(s@.take(i + 1).drop_last() =~= s@.take(i as int));
        let c: char = v[i];
        if c == '\\' {
            out.push('\\');
            out.push('\\');
        } else if c == '"' {
            out.push('\\');
            out.push('2');
            out.push('2');
        } else {
            out.push(c);
        }
        i = i + 1;
        assert(out@ =~= template_escaped(s@.take(i as int)));
    }
    assert(s@.take(i as int) =~= s@);
    out
}

// ---------------------------------------------------------------------------
// Runtime functions
// ---------------------------------------------------------------------------

/// The name begins with one of the names of the runtime that take two dynamic
/// values and give one.
pub open spec fn is_arithmetic(n: Seq<char>) -> bool {
    begins(n, "vredrs_value_add"@) || begins(n, "vredrs_value_sub"@) || begins(
        n,
        "vredrs_value_mul"@,
    ) || begins(n, "vredrs_value_div"@) || begins(n, "vredrs_value_mod"@)
}

/// The name begins with one of the names of the runtime that compare two
/// dynamic values.
pub open spec fn is_comparison(n: Seq<char>) -> bool {
    begins(n, "vredrs_value_eq"@) || begins(n, "vredrs_value_ne"@) || begins(
        n,
        "vredrs_value_lt"@,
    ) || begins(n, "vredrs_value_le"@) || begins(n, "vredrs_value_gt"@) || begins(
        n,
        "vredrs_value_ge"@,
    )
}

/// The name holds one of the words for functions without a result.
pub open spec fn is_procedure(n: Seq<char>) -> bool {
    occurs(n, "print"@) || occurs(n, "throw"@) || occurs(n, "panic"@) || occurs(n, "assert"@)
        || occurs(n, "spawn"@) || occurs(n, "yield"@) || occurs(n, "flush"@) || occurs(n, "with"@)
}

/// The result type of a runtime function.
#[verifier::opaque]
pub open spec fn result_type(n: Seq<char>) -> Seq<char> {
    if begins(n, "vredrs_value_make"@) || is_arithmetic(n) || begins(n, "vredrs_value_nil"@) {
        "%vredrs_value"@
    } else if begins(n, "vredrs_value_get"@) || begins(n, "vredrs_value_tag"@) || is_comparison(n)
        || begins(n, "vredrs_len"@) {
        "i64"@
    } else if is_procedure(n) {
        "void"@
    } else {
        "i64"@
    }
}

/// The parameter types of a runtime function.
#[verifier::opaque]
pub open spec fn parameter_types(n: Seq<char>) -> Seq<char> {
    if is_arithmetic(n) || is_comparison(n) {
        "%vredrs_value, %vredrs_value"@
    } else if begins(n, "vredrs_value_make_i64"@) || begins(n, "vredrs_value_make_f64"@) || begins(
        n,
        "vredrs_value_make_bool"@,
    ) {
        "i64"@
    } else if begins(n, "vredrs_value_get"@) {
        "%vredrs_value"@
    } else if n == "vredrs_print"@ || n == "vredrs_println"@ {
        "%vredrs_value"@
    } else if n == "vredrs_len"@ || n == "vredrs_index"@ {
        "i64, i64"@
    } else {
        "i64"@
    }
}

/// Whether the function takes two dynamic values and gives one.
fn arithmetic(n: &str) -> (r: bool)
    ensures
        r == is_arithmetic(n@),
{
    starts_with(n, "vredrs_value_add") || starts_with(n, "vredrs_value_sub") || starts_with(
        n,
        "vredrs_value_mul",
    ) || starts_with(n, "vredrs_value_div") || starts_with(n, "vredrs_value_mod")
}

/// Whether the function compares two dynamic values.
fn comparison(n: &str) -> (r: bool)
    ensures
        r == is_comparison(n@),
{
    starts_with(n, "vredrs_value_eq") || starts_with(n, "vredrs_value_ne") || starts_with(
        n,
        "vredrs_value_lt",
    ) || starts_with(n, "vredrs_value_le") || starts_with(n, "vredrs_value_gt") || starts_with(
        n,
        "vredrs_value_ge",
    )
}

/// Whether the function has no result.
fn procedure(n: &str) -> (r: bool)
    ensures
        r == is_procedure(n@),
{
    contains(n, "print") || contains(n, "throw") || contains(n, "panic") || contains(n, "assert")
        || contains(n, "spawn") || contains(n, "yield") || contains(n, "flush") || contains(
        n,
        "with",
    )
}

/// The result type of a runtime function.
fn extern_return_ty(n: &str) -> (r: &'static str)
    ensures
        r@ == result_type(n@),
{
    reveal(result_type);
    if starts_with(n, "vredrs_value_make") || arithmetic(n) || starts_with(n, "vredrs_value_nil") {
        "%vredrs_value"
    } else if starts_with(n, "vredrs_value_get") || starts_with(n, "vredrs_value_tag")
        || comparison(n) || starts_with(n, "vredrs_len") {
        "i64"
    } else if procedure(n) {
        "void"
    } else {
        "i64"
    }
}

/// The parameter types of a runtime function.
fn extern_param_sig(n: &str) -> (r: &'static str)
    ensures
        r@ == parameter_types(n@),
{
    reveal(parameter_types);
    if arithmetic(n) || comparison(n) {
        "%vredrs_value, %vredrs_value"
    } else if starts_with(n, "vredrs_value_make_i64") || starts_with(n, "vredrs_value_make_f64")
        || starts_with(n, "vredrs_value_make_bool") {
        "i64"
    } else if starts_with(n, "vredrs_value_get") {
        "%vredrs_value"
    } else if same(n, "vredrs_print") || same(n, "vredrs_println") {
        "%vredrs_value"
    } else if same(n, "vredrs_len") || same(n, "vredrs_index") {
        "i64, i64"
    } else {
        "i64"
    }
}

/// The runtime function that an instruction calls.
pub open spec fn called_runtime(n: Insn) -> Option<Seq<char>> {
    match n {
        Insn::RuntimeCall { dst, func, args } => Some(func),
        Insn::CallDyn { dst, callee, args, ty } => Some("vredrs_call_dynamic"@),
        Insn::Bin { op, dst, lhs, rhs, ty } => if op.dynamic() {
            Some(runtime_op(op))
        } else {
            None
        },
        Insn::Unbox { dst, src, to } => unbox_function(to),
        Insn::Boxed { dst, src, from } => box_function(from),
        _ => None,
    }
}

/// The runtime functions that the first `k` instructions call.
pub open spec fn runtime_calls(acc: Seq<Seq<char>>, ns: Seq<Insn>, k: nat) -> Seq<Seq<char>>
    decreases k,
{
    if k == 0 || k > ns.len() {
        acc
    } else {
        let prev = runtime_calls(acc, ns, (k - 1) as nat);
        match called_runtime(ns[k - 1]) {
            Some(f) => prev.push(f),
            None => prev,
        }
    }
}

/// The runtime functions that the first `k` functions call.
pub open spec fn module_calls(fs: Seq<IrFn>, k: nat) -> Seq<Seq<char>>
    decreases k,
{
    if k == 0 || k > fs.len() {
        Seq::empty()
    } else {
        runtime_calls(module_calls(fs, (k - 1) as nat), fs[k - 1].body, fs[k - 1].body.len())
    }
}

/// The runtime functions that a module declares, sorted.
pub open spec fn declared(m: IrMod) -> Seq<Seq<char>> {
    sorted_set(module_calls(m.functions, m.functions.len()))
}

/// A called runtime function is among the calls.
proof fn lemma_called(acc: Seq<Seq<char>>, ns: Seq<Insn>, k: nat, f: Seq<char>)
    requires
        k <= ns.len(),
        acc.contains(f) || exists|j: int| 0 <= j < k && called_runtime(#[trigger] ns[j]) == Some(f),
    ensures
        runtime_calls(acc, ns, k).contains(f),
    decreases k,
{
    if k > 0 {
        let prev = runtime_calls(acc, ns, (k - 1) as nat);
        if acc.contains(f) || exists|j: int|
            0 <= j < k - 1 && called_runtime(#[trigger] ns[j]) == Some(f) {
            lemma_called(acc, ns, (k - 1) as nat, f);
            let i = prev.index_of(f);
            assert(runtime_calls(acc, ns, k)[i] == f);
        } else {
            assert(runtime_calls(acc, ns, k)[prev.len() as int] == f);
        }
    }
}

/// A runtime function that one of the first functions calls is among the calls.
proof fn lemma_module_called(fs: Seq<IrFn>, k: nat, i: int, j: int, f: Seq<char>)
    requires
        0 <= i < k <= fs.len(),
        0 <= j < fs[i].body.len(),
        called_runtime(fs[i].body[j]) == Some(f),
    ensures
        module_calls(fs, k).contains(f),
    decreases k,
{
    if i < k - 1 {
        lemma_module_called(fs, (k - 1) as nat, i, j, f);
    }
    lemma_called(module_calls(fs, (k - 1) as nat), fs[k - 1].body, fs[k - 1].body.len(), f);
}

/// Every runtime function that some instruction calls is declared, and no
/// function is declared twice.
pub proof fn law_called_functions_are_declared(m: IrMod, i: int, j: int)
    requires
        0 <= i < m.functions.len(),
        0 <= j < m.functions[i].body.len(),
    ensures
        called_runtime(m.functions[i].body[j]) matches Some(f) ==> declared(m).contains(f),
        strictly_sorted(declared(m)),
{
    law_sorted_texts_are_the_texts(module_calls(m.functions, m.functions.len()));
    match called_runtime(m.functions[i].body[j]) {
        Some(f) => {
            lemma_module_called(m.functions, m.functions.len(), i, j, f);
            assert(module_calls(m.functions, m.functions.len()).contains(f));
        },
        None => {},
    }
}

/// The runtime function that an instruction calls.
fn collect_extern(n: &StaticInsn) -> (r: Option<String>)
    ensures
        match r {
            Some(s) => called_runtime(n@) == Some(s@),
            None => called_runtime(n@) is None,
        },
{
    match n {
        StaticInsn::RuntimeCall { func, .. } => Some(func.clone()),
        StaticInsn::CallDyn { .. } => Some(text("vredrs_call_dynamic")),
        StaticInsn::Bin { op, .. } => {
            if op.is_dyn() {
                Some(text(dyn_bin_func(*op)))
            } else {
                None
            }
        },
        StaticInsn::Unbox { to, .. } => match get_func(*to) {
            Some(f) => Some(text(f)),
            None => None,
        },
        StaticInsn::Box { from, .. } => match make_func(*from) {
            Some(f) => Some(text(f)),
            None => None,
        },
        _ => None,
    }
}

/// Adds the runtime functions that instructions call.
fn collect_calls(out: &mut TextList, ns: &Vec<StaticInsn>)
    ensures
        final(out)@ == runtime_calls(old(out)@, insns(ns@), ns@.len()),
{
    let mut k: usize = 0;
    while k < ns.len()
        invariant
            k <= ns@.len(),
            out@ == runtime_calls(old(out)@, insns(ns@), k as nat),
        decreases ns@.len() - k,
    {
        match collect_extern(&ns[k]) {
            Some(f) => {
                out.push(f);
            },
            None => {},
        }
        k = k + 1;
    }
}

/// The runtime functions that a module declares.
fn collect_externs(m: &IrModule) -> (r: TextList)
    ensures
        r@ == declared(m@),
{
    let mut out = TextList::new();
    let mut k: usize = 0;
    while k < m.functions.len()
        invariant
            k <= m.functions@.len(),
            out@ == module_calls(ir_fns(m.functions@), k as nat),
        decreases m.functions@.len() - k,
    {
        collect_calls(&mut out, &m.functions[k].body);
        k = k + 1;
    }
    out.sorted_unique()
}

// ---------------------------------------------------------------------------
// Registers
// ---------------------------------------------------------------------------

/// The registers with the one of an operand, unless it is there.
pub open spec fn with_reg(regs: Seq<Seq<char>>, o: Opnd) -> Seq<Seq<char>> {
    match o {
        Opnd::Reg(n, _) => if regs.contains(n) {
            regs
        } else {
            regs.push(n)
        },
        _ => regs,
    }
}

/// The registers with the one of an optional operand.
pub open spec fn with_opt_reg(regs: Seq<Seq<char>>, o: Option<Opnd>) -> Seq<Seq<char>> {
    match o {
        Some(x) => with_reg(regs, x),
        None => regs,
    }
}

/// The registers with those of the first `k` operands.
pub open spec fn with_regs(regs: Seq<Seq<char>>, os: Seq<Opnd>, k: nat) -> Seq<Seq<char>>
    decreases k,
{
    if k == 0 || k > os.len() {
        regs
    } else {
        with_reg(with_regs(regs, os, (k - 1) as nat), os[k - 1])
    }
}

/// The registers with those of the first `k` assembly operands.
pub open spec fn with_asm_regs(regs: Seq<Seq<char>>, os: Seq<(Seq<char>, Opnd)>, k: nat) -> Seq<
    Seq<char>,
>
    decreases k,
{
    if k == 0 || k > os.len() {
        regs
    } else {
        with_reg(with_asm_regs(regs, os, (k - 1) as nat), os[k - 1].1)
    }
}

/// The registers with those of an instruction, the destination first.
#[verifier::opaque]
pub open spec fn insn_regs(regs: Seq<Seq<char>>, n: Insn) -> Seq<Seq<char>> {
    match n {
        Insn::Mov { dst, src, ty } => with_reg(with_reg(regs, dst), src),
        Insn::Boxed { dst, src, from } => with_reg(with_reg(regs, dst), src),
        Insn::Unbox { dst, src, to } => with_reg(with_reg(regs, dst), src),
        Insn::Bin { op, dst, lhs, rhs, ty } => with_reg(with_reg(with_reg(regs, dst), lhs), rhs),
        Insn::Neg { dst, src, ty } => with_reg(with_reg(regs, dst), src),
        Insn::Not { dst, src, ty } => with_reg(with_reg(regs, dst), src),
        Insn::Cmp { dst, cond, lhs, rhs, ty } => with_reg(with_reg(with_reg(regs, dst), lhs), rhs),
        Insn::Branch { cond, lhs, rhs, target } => with_reg(with_reg(regs, lhs), rhs),
        Insn::BranchTrue { cond, target } => with_reg(regs, cond),
        Insn::Load { dst, addr, size, ty } => with_reg(with_reg(regs, dst), addr),
        Insn::Store { addr, value, size, ty } => with_reg(with_reg(regs, addr), value),
        Insn::Alloca { dst, size, align } => with_reg(with_reg(regs, dst), size),
        Insn::StackFree { ptr, size } => with_reg(with_reg(regs, ptr), size),
        Insn::Call { dst, func, args, ty } => with_regs(
            with_opt_reg(regs, dst),
            args,
            args.len(),
        ),
        Insn::RuntimeCall { dst, func, args } => with_regs(
            with_opt_reg(regs, dst),
            args,
            args.len(),
        ),
        Insn::CallDyn { dst, callee, args, ty } => with_regs(
            with_reg(with_opt_reg(regs, dst), callee),
            args,
            args.len(),
        ),
        Insn::Ret { value } => with_opt_reg(regs, value),
        Insn::Push { src } => with_reg(regs, src),
        Insn::Pop { dst } => with_reg(regs, dst),
        Insn::Asm { template, inputs, outputs, clobbers } => with_asm_regs(
            with_asm_regs(regs, outputs, outputs.len()),
            inputs,
            inputs.len(),
        ),
        Insn::Prefetch { addr, hint } => with_reg(regs, addr),
        _ => regs,
    }
}

/// The registers of the first `k` instructions, in the order of their first
/// use.
pub open spec fn body_regs(ns: Seq<Insn>, k: nat) -> Seq<Seq<char>>
    decreases k,
{
    if k == 0 || k > ns.len() {
        Seq::empty()
    } else {
        insn_regs(body_regs(ns, (k - 1) as nat), ns[k - 1])
    }
}

/// The registers of a function.
pub open spec fn fn_regs(f: IrFn) -> Seq<Seq<char>> {
    body_regs(f.body, f.body.len())
}

/// Adds the register of an operand.
fn visit(regs: &mut TextList, o: &Operand)
    ensures
        final(regs)@ == with_reg(old(regs)@, o@),
{
    match o {
        Operand::Reg(n, _) => {
            if !regs.contains(n.as_str()) {
                regs.push(n.clone());
            }
        },
        _ => {},
    }
}

/// Adds the register of an optional operand.
fn visit_opt(regs: &mut TextList, o: &Option<Operand>)
    ensures
        final(regs)@ == with_opt_reg(old(regs)@, opt_opnd(*o)),
{
    match o {
        Some(x) => {
            visit(regs, x);
        },
        None => {},
    }
}

/// Adds the registers of operands.
fn visit_all(regs: &mut TextList, os: &Vec<Operand>)
    ensures
        final(regs)@ == with_regs(old(regs)@, opnds(os@), os@.len()),
{
    let mut k: usize = 0;
    while k < os.len()
        invariant
            k <= os@.len(),
            regs@ == with_regs(old(regs)@, opnds(os@), k as nat),
        decreases os@.len() - k,
    {
        visit(regs, &os[k]);
        k = k + 1;
    }
}

/// Adds the registers of assembly operands.
fn visit_asm(regs: &mut TextList, os: &Vec<AsmArg>)
    ensures
        final(regs)@ == with_asm_regs(old(regs)@, asm_args(os@), os@.len()),
{
    let mut k: usize = 0;
    while k < os.len()
        invariant
            k <= os@.len(),
            regs@ == with_asm_regs(old(regs)@, asm_args(os@), k as nat),
        decreases os@.len() - k,
    {
        visit(regs, &os[k].operand);
        k = k + 1;
    }
}

/// Adds the registers of an instruction.
fn collect_regs(regs: &mut TextList, n: &StaticInsn)
    ensures
        final(regs)@ == insn_regs(old(regs)@, n@),
{
    reveal(insn_regs);
    match n {
        StaticInsn::Mov { dst, src, .. } => {
            visit(regs, dst);
            visit(regs, src);
        },
        StaticInsn::Box { dst, src, .. } => {
            visit(regs, dst);
            visit(regs, src);
        },
        StaticInsn::Unbox { dst, src, .. } => {
            visit(regs, dst);
            visit(regs, src);
        },
        StaticInsn::Bin { dst, lhs, rhs, .. } => {
            visit(regs, dst);
            visit(regs, lhs);
            visit(regs, rhs);
        },
        StaticInsn::Neg { dst, src, .. } => {
            visit(regs, dst);
            visit(regs, src);
        },
        StaticInsn::Not { dst, src, .. } => {
            visit(regs, dst);
            visit(regs, src);
        },
        StaticInsn::Cmp { dst, lhs, rhs, .. } => {
            visit(regs, dst);
            visit(regs, lhs);
            visit(regs, rhs);
        },
        StaticInsn::Branch { lhs, rhs, .. } => {
            visit(regs, lhs);
            visit(regs, rhs);
        },
        StaticInsn::BranchTrue { cond, .. } => {
            visit(regs, cond);
        },
        StaticInsn::Load { dst, addr, .. } => {
            visit(regs, dst);
            visit(regs, addr);
        },
        StaticInsn::Store { addr, value, .. } => {
            visit(regs, addr);
            visit(regs, value);
        },
        StaticInsn::Alloca { dst, size, .. } => {
            visit(regs, dst);
            visit(regs, size);
        },
        StaticInsn::StackFree { ptr, size } => {
            visit(regs, ptr);
            visit(regs, size);
        },
        StaticInsn::Call { dst, args, .. } => {
            visit_opt(regs, dst);
            visit_all(regs, args);
        },
        StaticInsn::RuntimeCall { dst, args, .. } => {
            visit_opt(regs, dst);
            visit_all(regs, args);
        },
        StaticInsn::CallDyn { dst, callee, args, .. } => {
            visit_opt(regs, dst);
            visit(regs, callee);
            visit_all(regs, args);
        },
        StaticInsn::Ret { value } => {
            visit_opt(regs, value);
        },
        StaticInsn::Push { src } => {
            visit(regs, src);
        },
        StaticInsn::Pop { dst } => {
            visit(regs, dst);
        },
        StaticInsn::Asm { inputs, outputs, .. } => {
            visit_asm(regs, outputs);
            visit_asm(regs, inputs);
        },
        StaticInsn::Prefetch { addr, .. } => {
            visit(regs, addr);
        },
        _ => {},
    }
}

/// The registers of a function.
fn registers(ns: &Vec<StaticInsn>) -> (r: TextList)
    ensures
        r@ == body_regs(insns(ns@), ns@.len()),
{
    let mut out = TextList::new();
    let mut k: usize = 0;
    while k < ns.len()
        invariant
            k <= ns@.len(),
            out@ == body_regs(insns(ns@), k as nat),
        decreases ns@.len() - k,
    {
        collect_regs(&mut out, &ns[k]);
        k = k + 1;
    }
    out
}

// ---------------------------------------------------------------------------
// Loads and stores
// ---------------------------------------------------------------------------

/// The state of emission: the text, the stack slots of the registers, the next
/// value number, and the types of the string constants.
pub struct Ll {
    pub out: Seq<char>,
    pub slots: Map<Seq<char>, Seq<char>>,
    pub next: usize,
    pub strs: Seq<Seq<char>>,
}

impl Ll {
    /// The same state with another text.
    pub open spec fn with(self, out: Seq<char>) -> Ll {
        Ll { out, ..self }
    }

    /// The same state with one more value.
    pub open spec fn fresh(self) -> Ll {
        Ll { next: bump(self.next), ..self }
    }

    /// The next value.
    pub open spec fn value(self) -> Seq<char> {
        value_name(self.next)
    }
}

/// The name of value `n`.
#[verifier::opaque]
pub open spec fn value_name(n: usize) -> Seq<char> {
    "%"@ + dec(n as nat)
}

/// The state behind the load of an operand, and its value without its type.
#[verifier::opaque]
pub open spec fn load(st: Ll, o: Opnd) -> (Ll, Seq<char>) {
    match o {
        Opnd::Reg(n, t) => if st.slots.contains_key(n) {
            (
                st.fresh().with(
                    st.out + "  "@ + st.value() + " = load "@ + value_type(t) + ", "@ + value_type(t) + "* "@ + st.slots[n] + "\n"@,
                ),
                st.value(),
            )
        } else {
            (
                st,
                if t == TypeHint::F64 {
                    "0.0"@
                } else {
                    "0"@
                },
            )
        },
        Opnd::ImmI64(v) => (st, int_dec(v as int)),
        Opnd::ImmF64(b) => (st, "0x"@ + hex(b as nat, 16, false)),
        Opnd::ImmStr(i) => if i < st.strs.len() {
            (
                st.fresh().with(
                    st.out + "  "@ + st.value() + " = getelementptr "@ + st.strs[i as int] + ", "@ + st.strs[i as int] + "* "@ + string_name(i as nat) + ", i32 0, i32 0\n"@,
                ),
                st.value(),
            )
        } else {
            (st, "null"@)
        },
        Opnd::ImmBool(b) => (
            st,
            if b {
                "1"@
            } else {
                "0"@
            },
        ),
        Opnd::Null => (st, "0"@),
        Opnd::Label(l) => (st, "blockaddress(@main, %"@ + clean_name(l) + ")"@),
        Opnd::Sym(s) => (st, "bitcast (i64* @"@ + s + " to i8*)"@),
    }
}

/// The state behind the store of a value to an operand; only a register with a
/// stack slot takes it.
#[verifier::opaque]
pub open spec fn store(st: Ll, o: Opnd, v: Seq<char>, t: TypeHint) -> Ll {
    match o {
        Opnd::Reg(n, _) => if st.slots.contains_key(n) {
            st.with(
                st.out + "  store "@ + value_type(t) + " "@ + v + ", "@ + value_type(t) + "* "@ + st.slots[n] + "\n"@,
            )
        } else {
            st
        },
        _ => st,
    }
}

/// The state behind the loads of the first `k` operands, and their values.
pub open spec fn loads(st: Ll, os: Seq<Opnd>, k: nat) -> (Ll, Seq<Seq<char>>)
    decreases k,
{
    if k == 0 || k > os.len() {
        (st, Seq::empty())
    } else {
        let (s, v) = loads(st, os, (k - 1) as nat);
        let (s1, x) = load(s, os[k - 1]);
        (s1, v.push(x))
    }
}

/// The arguments of a call with their types.
pub open spec fn typed_args(os: Seq<Opnd>, vs: Seq<Seq<char>>) -> Seq<Seq<char>> {
    Seq::new(os.len(), |i: int| value_type(os[i].hint()) + " "@ + vs[i])
}

// ---------------------------------------------------------------------------
// Instructions
// ---------------------------------------------------------------------------

/// The state behind a boxing.
#[verifier::opaque]
pub open spec fn emit_box(st: Ll, dst: Opnd, src: Opnd, from: TypeHint) -> Ll {
    let (s1, v) = load(st, src);
    match box_function(from) {
        Some(f) => store(
            s1.fresh().with(
                s1.out + "  "@ + s1.value() + " = call %vredrs_value @"@ + f + "("@ + value_type(from) + " "@ + v + ")\n"@,
            ),
            dst,
            s1.value(),
            TypeHint::Dynamic,
        ),
        None => store(s1, dst, v, from),
    }
}

/// The state behind an unboxing.
#[verifier::opaque]
pub open spec fn emit_unbox(st: Ll, dst: Opnd, src: Opnd, to: TypeHint) -> Ll {
    let (s1, v) = load(st, src);
    match unbox_function(to) {
        Some(f) => store(
            s1.fresh().with(
                s1.out + "  "@ + s1.value() + " = call "@ + value_type(to) + " @"@ + f + "(%vredrs_value "@ + v + ")\n"@,
            ),
            dst,
            s1.value(),
            to,
        ),
        None => store(s1, dst, v, to),
    }
}

/// The LLVM instruction of a static floating-point operation.
#[verifier::opaque]
pub open spec fn float_insn(op: BinOp) -> Seq<char> {
    match op {
        BinOp::Sub => "fsub"@,
        BinOp::Mul => "fmul"@,
        BinOp::Div => "fdiv"@,
        _ => "fadd"@,
    }
}

/// The LLVM instruction of a static integer operation.
#[verifier::opaque]
pub open spec fn int_insn(op: BinOp) -> Seq<char> {
    match op {
        BinOp::Sub => "sub"@,
        BinOp::Mul => "mul"@,
        BinOp::Div => "sdiv"@,
        BinOp::Mod => "srem"@,
        BinOp::And => "and"@,
        BinOp::Or => "or"@,
        BinOp::Xor => "xor"@,
        BinOp::Shl => "shl"@,
        BinOp::Shr => "ashr"@,
        _ => "add"@,
    }
}

/// The state behind a binary operation.
#[verifier::opaque]
pub open spec fn emit_binary(st: Ll, op: BinOp, dst: Opnd, lhs: Opnd, rhs: Opnd, ty: TypeHint) -> Ll {
    let (s1, l) = load(st, lhs);
    let (s2, r) = load(s1, rhs);
    let v = s2.value();
    if op.dynamic() {
        store(
            s2.fresh().with(
                s2.out + "  "@ + v + " = call %vredrs_value @"@ + runtime_op(op) + "(%vredrs_value "@ + l + ", %vredrs_value "@ + r + ")\n"@,
            ),
            dst,
            v,
            TypeHint::Dynamic,
        )
    } else if ty == TypeHint::F64 {
        store(
            s2.fresh().with(s2.out + "  "@ + v + " = "@ + float_insn(op) + " double "@ + l + ", "@ + r + "\n"@),
            dst,
            v,
            TypeHint::F64,
        )
    } else {
        store(
            s2.fresh().with(s2.out + "  "@ + v + " = "@ + int_insn(op) + " i64 "@ + l + ", "@ + r + "\n"@),
            dst,
            v,
            TypeHint::I64,
        )
    }
}

/// The state behind a negation.
#[verifier::opaque]
pub open spec fn emit_neg(st: Ll, dst: Opnd, src: Opnd, ty: TypeHint) -> Ll {
    let (s1, v) = load(st, src);
    let r = s1.value();
    store(
        s1.fresh().with(
            if ty == TypeHint::F64 {
                s1.out + "  "@ + r + " = fneg double "@ + v + "\n"@
            } else {
                s1.out + "  "@ + r + " = sub i64 0, "@ + v + "\n"@
            },
        ),
        dst,
        r,
        ty,
    )
}

/// The state behind a logical negation.
#[verifier::opaque]
pub open spec fn emit_not(st: Ll, dst: Opnd, src: Opnd) -> Ll {
    let (s1, v) = load(st, src);
    let r = s1.value();
    store(
        s1.fresh().with(s1.out + "  "@ + r + " = xor i64 "@ + v + ", 1\n"@),
        dst,
        r,
        TypeHint::Bool,
    )
}

/// The text with the comparison of two values: of floating-point numbers where
/// the type is theirs, of integers elsewhere.
#[verifier::opaque]
pub open spec fn compared(out: Seq<char>, c: Seq<char>, cond: Cond, l: Seq<char>, r: Seq<char>, ty: TypeHint) -> Seq<char> {
    if ty == TypeHint::F64 {
        out + "  "@ + c + " = fcmp "@ + predicate(cond, ty) + " double "@ + l + ", "@ + r + "\n"@
    } else {
        out + "  "@ + c + " = icmp "@ + predicate(cond, ty) + " i64 "@ + l + ", "@ + r + "\n"@
    }
}

/// The type in which a branch compares its operands: floating-point where one
/// of them is.
pub open spec fn branch_type(lhs: Opnd, rhs: Opnd) -> TypeHint {
    if lhs.hint() == TypeHint::F64 || rhs.hint() == TypeHint::F64 {
        TypeHint::F64
    } else {
        TypeHint::I64
    }
}

/// The label behind the conditional branch on value `n`. No other label holds
/// a dollar sign.
#[verifier::opaque]
pub open spec fn next_label(n: usize) -> Seq<char> {
    "next$"@ + dec(n as nat)
}

/// The text with a conditional branch on value `n`: to `target` where the value
/// holds, and to the block that begins behind the branch where it does not.
#[verifier::opaque]
pub open spec fn branched(out: Seq<char>, n: usize, target: Seq<char>) -> Seq<char> {
    out + "  br i1 "@ + value_name(n) + ", label %"@ + clean_name(target) + ", label %"@ + next_label(n) + "\n"@ + next_label(n) + ":\n"@
}

/// The state behind a comparison.
#[verifier::opaque]
pub open spec fn emit_compare(st: Ll, dst: Opnd, cond: Cond, lhs: Opnd, rhs: Opnd, ty: TypeHint) -> Ll {
    let (s1, l) = load(st, lhs);
    let (s2, r) = load(s1, rhs);
    let c = s2.value();
    let s3 = s2.fresh().with(compared(s2.out, c, cond, l, r, ty));
    let e = s3.value();
    store(
        s3.fresh().with(s3.out + "  "@ + e + " = zext i1 "@ + c + " to i64\n"@),
        dst,
        e,
        TypeHint::Bool,
    )
}

/// The state behind a conditional branch on a comparison.
#[verifier::opaque]
pub open spec fn emit_branch(st: Ll, cond: Cond, lhs: Opnd, rhs: Opnd, target: Seq<char>) -> Ll {
    let (s1, l) = load(st, lhs);
    let (s2, r) = load(s1, rhs);
    s2.fresh().with(
        branched(
            compared(s2.out, s2.value(), cond, l, r, branch_type(lhs, rhs)),
            s2.next,
            target,
        ),
    )
}

/// The state behind a conditional branch on a value.
#[verifier::opaque]
pub open spec fn emit_branch_true(st: Ll, cond: Opnd, target: Seq<char>) -> Ll {
    let (s1, v) = load(st, cond);
    let zero = if cond.hint() == TypeHint::F64 {
        "0.0"@
    } else {
        "0"@
    };
    s1.fresh().with(
        branched(
            compared(s1.out, s1.value(), Cond::Ne, v, zero, branch_type(cond, cond)),
            s1.next,
            target,
        ),
    )
}

/// The LLVM type of a memory access of `n` bytes.
pub open spec fn access_type(n: u32) -> Seq<char> {
    if n == 1 {
        "i8"@
    } else if n == 2 {
        "i16"@
    } else if n == 4 {
        "i32"@
    } else {
        "i64"@
    }
}

/// The state behind a load from memory.
#[verifier::opaque]
pub open spec fn emit_memory_load(st: Ll, dst: Opnd, addr: Opnd, size: u32, ty: TypeHint) -> Ll {
    let (s1, a) = load(st, addr);
    let r = s1.value();
    store(
        s1.fresh().with(
            s1.out + "  "@ + r + " = load "@ + value_type(ty) + ", "@ + access_type(size) + "* "@ + a + "\n"@,
        ),
        dst,
        r,
        ty,
    )
}

/// The state behind a store to memory.
#[verifier::opaque]
pub open spec fn emit_memory_store(st: Ll, addr: Opnd, value: Opnd, size: u32, ty: TypeHint) -> Ll {
    let (s1, a) = load(st, addr);
    let (s2, v) = load(s1, value);
    s2.with(s2.out + "  store "@ + value_type(ty) + " "@ + v + ", "@ + access_type(size) + "* "@ + a + "\n"@)
}

/// The state behind a stack allocation.
#[verifier::opaque]
pub open spec fn emit_alloca(st: Ll, dst: Opnd, size: Opnd) -> Ll {
    let (s1, n) = load(st, size);
    let r = s1.value();
    store(
        s1.fresh().with(s1.out + "  "@ + r + " = alloca i8, i64 "@ + n + "\n"@),
        dst,
        r,
        TypeHint::Ptr,
    )
}

/// The state behind the call of a function whose result has type `ret`, stored
/// as `ty`.
#[verifier::opaque]
pub open spec fn emit_call(
    st: Ll,
    dst: Option<Opnd>,
    func: Seq<char>,
    args: Seq<Opnd>,
    ret: Seq<char>,
    ty: TypeHint,
) -> Ll {
    let (s1, vs) = loads(st, args, args.len());
    let list = joined(typed_args(args, vs), ", "@);
    match dst {
        Some(d) => store(
            s1.fresh().with(s1.out + "  "@ + s1.value() + " = call "@ + ret + " @"@ + func + "("@ + list + ")\n"@),
            d,
            s1.value(),
            ty,
        ),
        None => s1.with(s1.out + "  call void @"@ + func + "("@ + list + ")\n"@),
    }
}

/// The text with the first `k` values as further arguments.
pub open spec fn more_args(out: Seq<char>, vs: Seq<Seq<char>>, k: nat) -> Seq<char>
    decreases k,
{
    if k == 0 || k > vs.len() {
        out
    } else {
        more_args(out, vs, (k - 1) as nat) + ", i64 "@ + vs[k - 1]
    }
}

/// The state behind the call of a dynamic value.
#[verifier::opaque]
pub open spec fn emit_call_dyn(st: Ll, dst: Option<Opnd>, callee: Opnd, args: Seq<Opnd>, ty: TypeHint) -> Ll {
    let (s1, c) = load(st, callee);
    let (s2, vs) = loads(s1, args, args.len());
    match dst {
        Some(d) => store(
            s2.fresh().with(
                more_args(
                    s2.out + "  "@ + s2.value() + " = call "@ + value_type(ty) + " @vredrs_call_dynamic(i64 "@ + c,
                    vs,
                    vs.len(),
                ) + ")\n"@,
            ),
            d,
            s2.value(),
            ty,
        ),
        None => s2.with(
            more_args(
                s2.out + "  call void @vredrs_call_dynamic(i64 "@ + c,
                vs,
                vs.len(),
            ) + ")\n"@,
        ),
    }
}

/// The state behind a return.
#[verifier::opaque]
pub open spec fn emit_ret(st: Ll, value: Option<Opnd>) -> Ll {
    match value {
        Some(o) => {
            let (s1, v) = load(st, o);
            s1.with(s1.out + "  ret "@ + value_type(o.hint()) + " "@ + v + "\n"@)
        },
        None => st.with(st.out + "  ret void\n"@),
    }
}

/// The constraints of assembly operands, each behind `prefix`.
pub open spec fn constraint_list(os: Seq<(Seq<char>, Opnd)>, prefix: Seq<char>) -> Seq<Seq<char>> {
    Seq::new(os.len(), |i: int| prefix + os[i].0)
}

/// The constraints of an assembly block.
pub open spec fn constraint_string(outs: Seq<(Seq<char>, Opnd)>, ins: Seq<(Seq<char>, Opnd)>) -> Seq<
    char,
> {
    joined(constraint_list(outs, "="@), ","@) + (if outs.len() > 0 && ins.len() > 0 {
        ","@
    } else {
        ""@
    }) + joined(constraint_list(ins, ""@), ","@)
}

/// The operands of assembly operands.
pub open spec fn plain_operands(os: Seq<(Seq<char>, Opnd)>) -> Seq<Opnd> {
    Seq::new(os.len(), |i: int| os[i].1)
}

/// The state behind an assembly block.
#[verifier::opaque]
pub open spec fn emit_asm(
    st: Ll,
    template: Seq<char>,
    ins: Seq<(Seq<char>, Opnd)>,
    outs: Seq<(Seq<char>, Opnd)>,
) -> Ll {
    let (s1, vs) = loads(st, plain_operands(ins), ins.len());
    s1.with(
        s1.out + "  call void asm sideeffect \""@ + template_escaped(template) + "\", \""@ + constraint_string(outs, ins) + "\"("@ + joined(vs, ", "@) + ")\n"@,
    )
}

/// The state behind an instruction that leaves a line of its own.
#[verifier::opaque]
pub open spec fn emit_note(st: Ll, n: Insn) -> Ll {
    match n {
        Insn::Label(l) => st.with(
            st.out + "; label "@ + clean_name(l) + "\n"@ + clean_name(l) + ":\n"@,
        ),
        Insn::Comment(c) => st.with(st.out + "  ; "@ + c + "\n"@),
        Insn::SrcLoc { line, col } => st.with(
            st.out + "  ; srcloc "@ + dec(line as nat) + ":"@ + dec(col as nat) + "\n"@,
        ),
        Insn::Jump { target } => st.with(st.out + "  br label %"@ + clean_name(target) + "\n"@),
        Insn::PipelineMarker { name } => st.with(st.out + "  ; @pipeline "@ + name + "\n"@),
        Insn::IsrEntry { group, priority } => st.with(
            st.out + "  ; @isr_group "@ + group + " prio="@ + int_dec(priority as int) + "\n"@,
        ),
        Insn::WcetNote { cycles, budget } => st.with(
            st.out + "  ; wcet cycles="@ + dec(cycles as nat) + " budget="@ + dec(budget as nat) + "\n"@,
        ),
        Insn::DiffMeta { symbol, offset } => st.with(
            st.out + "  ; diffmeta "@ + symbol + " +0x"@ + hex(offset as nat, 0, false) + "\n"@,
        ),
        Insn::Push { src } => {
            let (s1, v) = load(st, src);
            s1.with(s1.out + "  ; push "@ + v + "\n"@)
        },
        Insn::Pop { dst } => store(
            st.fresh().with(st.out + "  ; pop -> "@ + st.value() + "\n"@),
            dst,
            st.value(),
            TypeHint::Dynamic,
        ),
        Insn::StackFree { ptr, size } => {
            let (s1, p) = load(st, ptr);
            s1.with(s1.out + "  call void @llvm.lifetime.end.p0i8(i64 -1, i8* "@ + p + ")\n"@)
        },
        Insn::Prefetch { addr, hint } => {
            let (s1, a) = load(st, addr);
            s1.with(
                s1.out + "  call void @llvm.prefetch.p0i8(i8* "@ + a + ", i32 0, i32 3, i32 1)\n"@,
            )
        },
        _ => st,
    }
}

/// The state behind an instruction.
#[verifier::opaque]
pub open spec fn emit_one(st: Ll, n: Insn) -> Ll {
    match n {
        Insn::Mov { dst, src, ty } => {
            let (s1, v) = load(st, src);
            store(s1, dst, v, ty)
        },
        Insn::Boxed { dst, src, from } => emit_box(st, dst, src, from),
        Insn::Unbox { dst, src, to } => emit_unbox(st, dst, src, to),
        Insn::Bin { op, dst, lhs, rhs, ty } => emit_binary(st, op, dst, lhs, rhs, ty),
        Insn::Neg { dst, src, ty } => emit_neg(st, dst, src, ty),
        Insn::Not { dst, src, ty } => emit_not(st, dst, src),
        Insn::Cmp { dst, cond, lhs, rhs, ty } => emit_compare(st, dst, cond, lhs, rhs, ty),
        Insn::Branch { cond, lhs, rhs, target } => emit_branch(st, cond, lhs, rhs, target),
        Insn::BranchTrue { cond, target } => emit_branch_true(st, cond, target),
        Insn::Load { dst, addr, size, ty } => emit_memory_load(st, dst, addr, size, ty),
        Insn::Store { addr, value, size, ty } => emit_memory_store(st, addr, value, size, ty),
        Insn::Alloca { dst, size, align } => emit_alloca(st, dst, size),
        Insn::Call { dst, func, args, ty } => emit_call(st, dst, func, args, value_type(ty), ty),
        Insn::CallDyn { dst, callee, args, ty } => emit_call_dyn(st, dst, callee, args, ty),
        Insn::RuntimeCall { dst, func, args } => emit_call(
            st,
            dst,
            func,
            args,
            "i64"@,
            TypeHint::Dynamic,
        ),
        Insn::Ret { value } => emit_ret(st, value),
        Insn::Asm { template, inputs, outputs, clobbers } => emit_asm(
            st,
            template,
            inputs,
            outputs,
        ),
        _ => emit_note(st, n),
    }
}

/// The state behind the first `k` instructions.
pub open spec fn emit_body(st: Ll, ns: Seq<Insn>, k: nat) -> Ll
    decreases k,
{
    if k == 0 || k > ns.len() {
        st
    } else {
        emit_one(emit_body(st, ns, (k - 1) as nat), ns[k - 1])
    }
}

// ---------------------------------------------------------------------------
// Functions and modules
// ---------------------------------------------------------------------------

/// The position of a register among those of the parameters, at or behind `i`.
pub open spec fn param_position(regs: Seq<Seq<char>>, r: Seq<char>, i: int) -> Option<int>
    decreases regs.len() - i,
{
    if i < 0 || i >= regs.len() {
        None
    } else if regs[i] == r {
        Some(i)
    } else {
        param_position(regs, r, i + 1)
    }
}

/// The type of the stack slot of a register.
pub open spec fn slot_type(f: IrFn, r: Seq<char>) -> TypeHint {
    match param_position(f.param_regs, r, 0) {
        Some(i) => f.params[i].1,
        None => TypeHint::I64,
    }
}

/// Every used register of a parameter belongs to a parameter.
pub open spec fn params_match(f: IrFn) -> bool {
    forall|i: int|
        f.params.len() <= i < f.param_regs.len() ==> !fn_regs(f).contains(
            #[trigger] f.param_regs[i],
        )
}

/// The state with stack slots for the first `k` registers.
pub open spec fn alloc_slots(st: Ll, f: IrFn, regs: Seq<Seq<char>>, k: nat) -> Ll
    decreases k,
{
    if k == 0 || k > regs.len() {
        st
    } else {
        let s = alloc_slots(st, f, regs, (k - 1) as nat);
        Ll {
            slots: s.slots.insert(regs[k - 1], s.value()),
            ..s.fresh().with(
                s.out + "  "@ + s.value() + " = alloca "@ + value_type(slot_type(f, regs[k - 1])) + ", align 8\n"@,
            )
        }
    }
}

/// The text with the first `k` parameters stored to their stack slots.
pub open spec fn store_params(out: Seq<char>, slots: Map<Seq<char>, Seq<char>>, f: IrFn, k: nat) -> Seq<
    char,
>
    decreases k,
{
    if k == 0 || k > f.param_regs.len() {
        out
    } else {
        let prev = store_params(out, slots, f, (k - 1) as nat);
        let r = f.param_regs[k - 1];
        if slots.contains_key(r) {
            let t = f.params[k - 1].1;
            prev + "  store "@ + value_type(t) + " %"@ + clean_name(r) + ", "@ + value_type(t) + "* "@ + slots[r] + "\n"@
        } else {
            prev
        }
    }
}

/// The lesser of the numbers of parameters and of parameter registers.
pub open spec fn param_count(f: IrFn) -> nat {
    if f.param_regs.len() < f.params.len() {
        f.param_regs.len()
    } else {
        f.params.len()
    }
}

/// The parameters of a function with their types.
pub open spec fn param_texts(f: IrFn) -> Seq<Seq<char>> {
    Seq::new(
        param_count(f),
        |i: int| value_type(f.params[i].1) + " %"@ + clean_name(f.param_regs[i]),
    )
}

/// The characters behind the last end of line.
pub open spec fn last_line(s: Seq<char>) -> Seq<char>
    decreases s.len(),
{
    if s.len() == 0 || s.last() == '\n' {
        Seq::empty()
    } else {
        last_line(s.drop_last()).push(s.last())
    }
}

/// The text ends with an instruction that ends a block.
pub open spec fn ends_block(out: Seq<char>) -> bool {
    let t = last_line(trim_right(out));
    begins(t, "  ret "@) || begins(t, "  br "@) || begins(t, "  unreachable"@) || begins(
        t,
        "  switch "@,
    )
}

/// The text behind the body of a function.
#[verifier::opaque]
pub open spec fn function_end(out: Seq<char>, t: TypeHint) -> Seq<char> {
    (if ends_block(out) {
        out
    } else {
        out + "  ret "@ + end_value(t) + "\n"@
    }) + "}\n"@
}

/// The state in front of the body of a function.
#[verifier::opaque]
pub open spec fn function_start(st: Ll, f: IrFn) -> Ll {
    let head = Ll {
        out: st.out + "\ndefine "@ + value_type(f.return_ty) + " @"@ + f.name + "("@ + joined(param_texts(f), ", "@) + ") {\nentry:\n"@,
        slots: Map::empty(),
        next: 0,
        ..st
    };
    let s = alloc_slots(head, f, fn_regs(f), fn_regs(f).len());
    s.with(store_params(s.out, s.slots, f, f.param_regs.len()))
}

/// The state behind a function.
pub open spec fn emit_fn(st: Ll, f: IrFn) -> Ll {
    let s = emit_body(function_start(st, f), f.body, f.body.len());
    s.with(function_end(s.out, f.return_ty))
}

/// The state behind the first `k` functions.
pub open spec fn emit_fns(st: Ll, fs: Seq<IrFn>, k: nat) -> Ll
    decreases k,
{
    if k == 0 || k > fs.len() {
        st
    } else {
        emit_fn(emit_fns(st, fs, (k - 1) as nat), fs[k - 1])
    }
}

/// The name of string constant `i`.
#[verifier::opaque]
pub open spec fn string_name(i: nat) -> Seq<char> {
    "@.str"@ + dec(i)
}

/// The type of a string constant: its bytes and a zero byte.
#[verifier::opaque]
pub open spec fn array_type(s: Seq<char>) -> Seq<char> {
    "["@ + dec((byte_len(s) + 1) as nat) + " x i8]"@
}

/// The state with the first `k` string constants.
pub open spec fn emit_strings(st: Ll, pool: Seq<Seq<char>>, k: nat) -> Ll
    decreases k,
{
    if k == 0 || k > pool.len() {
        st
    } else {
        let s = emit_strings(st, pool, (k - 1) as nat);
        let t = array_type(pool[k - 1]);
        Ll {
            strs: s.strs.push(t),
            ..s.with(
                s.out + string_name((k - 1) as nat) + " = private unnamed_addr constant "@ + t + " c\""@ + constant_text(pool[k - 1]) + "\\00\"\n"@,
            )
        }
    }
}

/// The text with the first `k` declarations.
pub open spec fn declarations(out: Seq<char>, es: Seq<Seq<char>>, k: nat) -> Seq<char>
    decreases k,
{
    if k == 0 || k > es.len() {
        out
    } else {
        declarations(out, es, (k - 1) as nat) + "declare "@ + result_type(es[k - 1]) + " @"@ + es[k - 1] + "("@ + parameter_types(es[k - 1]) + ")\n"@
    }
}

/// Some declaration is of a runtime function on dynamic values.
pub open spec fn uses_values(es: Seq<Seq<char>>) -> bool {
    exists|i: int| 0 <= i < es.len() && begins(#[trigger] es[i], "vredrs_value_"@)
}

/// The state in front of the functions of a module.
#[verifier::opaque]
pub open spec fn module_start(st: Ll, m: IrMod) -> Ll {
    let s = emit_strings(
        Ll {
            out: Seq::<char>::empty() + "; Vredrs LLVM IR (gradual: static + dynamic)\n"@,
            strs: Seq::empty(),
            ..st
        },
        m.string_pool,
        m.string_pool.len(),
    );
    let es = declared(m);
    let o = declarations(s.out, es, es.len());
    s.with(
        if uses_values(es) {
            o + "%vredrs_value = type { i8, i64 }\n"@
        } else {
            o
        },
    )
}

/// The state behind a module.
pub open spec fn module_state(st: Ll, m: IrMod) -> Ll {
    emit_fns(module_start(st, m), m.functions, m.functions.len())
}

/// The state of a new emitter.
pub open spec fn fresh_ll() -> Ll {
    Ll { out: Seq::empty(), slots: Map::empty(), next: 0, strs: Seq::empty() }
}

/// The functions of a module can be emitted.
pub open spec fn module_ok(m: IrMod) -> bool {
    forall|i: int| 0 <= i < m.functions.len() ==> params_match(#[trigger] m.functions[i])
}

// ---------------------------------------------------------------------------
// The emitter
// ---------------------------------------------------------------------------

/// The LLVM emitter.
pub struct LlvmEmitter {
    out: String,
    ssa_map: TextMap,
    ssa_counter: usize,
    str_globals: TextList,
}

impl View for LlvmEmitter {
    type V = Ll;

    closed spec fn view(&self) -> Ll {
        Ll {
            out: self.out@,
            slots: self.ssa_map@,
            next: self.ssa_counter,
            strs: self.str_globals@,
        }
    }
}

impl LlvmEmitter {
    /// A new emitter.
    pub fn new() -> (r: Self)
        ensures
            r@ == fresh_ll(),
    {
        let r = LlvmEmitter {
            out: String::new(),
            ssa_map: TextMap::new(),
            ssa_counter: 0,
            str_globals: TextList::new(),
        };
        assert(r.out@ =~= Seq::<char>::empty());
        r
    }

    /// The name of a new value.
    fn fresh_ssa(&mut self) -> (r: String)
        ensures
            final(self)@ == old(self)@.fresh(),
            r@ == old(self)@.value(),
    {
        reveal(value_name);
        let n: usize = self.ssa_counter;
        self.ssa_counter = bumped(n);
        numbered("%", n as u64)
    }

    /// Loads an operand.
    fn load_operand(&mut self, o: &Operand) -> (r: String)
        ensures
            (final(self)@, r@) == load(old(self)@, o@),
    {
        reveal(load);
        match o {
            Operand::Reg(n, t) => {
                match self.ssa_map.get(n.as_str()) {
                    Some(slot) => {
                        let slot = text(slot);
                        let r = self.fresh_ssa();
                        self.out.append("  ");
                        self.out.append(r.as_str());
                        self.out.append(" = load ");
                        self.out.append(llvm_type(*t));
                        self.out.append(", ");
                        self.out.append(llvm_type(*t));
                        self.out.append("* ");
                        self.out.append(slot.as_str());
                        self.out.append("\n");
                        r
                    },
                    None => text(
                        if *t == TypeHint::F64 {
                            "0.0"
                        } else {
                            "0"
                        },
                    ),
                }
            },
            Operand::ImmI64(v) => int_text(*v),
            Operand::ImmF64(b) => {
                let mut s = text("0x");
                push_hex(&mut s, *b, 16, false);
                s
            },
            Operand::ImmStr(i) => {
                if *i < self.str_globals.len() {
                    reveal(string_name);
                    let g = text(self.str_globals.get(*i));
                    let n = numbered("@.str", *i as u64);
                    let r = self.fresh_ssa();
                    self.out.append("  ");
                    self.out.append(r.as_str());
                    self.out.append(" = getelementptr ");
                    self.out.append(g.as_str());
                    self.out.append(", ");
                    self.out.append(g.as_str());
                    self.out.append("* ");
                    self.out.append(n.as_str());
                    self.out.append(", i32 0, i32 0\n");
                    r
                } else {
                    text("null")
                }
            },
            Operand::ImmBool(b) => text(
                if *b {
                    "1"
                } else {
                    "0"
                },
            ),
            Operand::Null => text("0"),
            Operand::Label(l) => {
                let n = sanitize_name(l.as_str());
                let mut r = cat("blockaddress(@main, %", n.as_str());
                r.append(")");
                r
            },
            Operand::Sym(s) => {
                let mut r = text("bitcast (i64* @");
                r.append(s.as_str());
                r.append(" to i8*)");
                r
            },
        }
    }

    /// Stores a value to an operand.
    fn store_operand(&mut self, o: &Operand, v: &str, t: TypeHint)
        ensures
            final(self)@ == store(old(self)@, o@, v@, t),
    {
        reveal(store);
        match o {
            Operand::Reg(n, _) => match self.ssa_map.get(n.as_str()) {
                Some(slot) => {
                    self.out.append("  store ");
                    self.out.append(llvm_type(t));
                    self.out.append(" ");
                    self.out.append(v);
                    self.out.append(", ");
                    self.out.append(llvm_type(t));
                    self.out.append("* ");
                    self.out.append(slot);
                    self.out.append("\n");
                },
                None => {},
            },
            _ => {},
        }
    }

    /// Loads operands.
    fn load_operands(&mut self, os: &Vec<Operand>) -> (r: TextList)
        ensures
            (final(self)@, r@) == loads(old(self)@, opnds(os@), os@.len()),
            r@.len() == os@.len(),
    {
        let mut out = TextList::new();
        let mut k: usize = 0;
        while k < os.len()
            invariant
                k <= os@.len(),
                out@.len() == k,
                (self@, out@) == loads(old(self)@, opnds(os@), k as nat),
            decreases os@.len() - k,
        {
            let v = self.load_operand(&os[k]);
            out.push(v);
            k = k + 1;
        }
        out
    }

    /// Emits a boxing.
    fn emit_boxing(&mut self, dst: &Operand, src: &Operand, from: TypeHint)
        ensures
            final(self)@ == emit_box(old(self)@, dst@, src@, from),
    {
        reveal(emit_box);
        let v = self.load_operand(src);
        match make_func(from) {
            Some(f) => {
                let r = self.fresh_ssa();
                self.out.append("  ");
                self.out.append(r.as_str());
                self.out.append(" = call %vredrs_value @");
                self.out.append(f);
                self.out.append("(");
                self.out.append(llvm_type(from));
                self.out.append(" ");
                self.out.append(v.as_str());
                self.out.append(")\n");
                self.store_operand(dst, r.as_str(), TypeHint::Dynamic);
            },
            None => {
                self.store_operand(dst, v.as_str(), from);
            },
        }
    }

    /// Emits an unboxing.
    fn emit_unboxing(&mut self, dst: &Operand, src: &Operand, to: TypeHint)
        ensures
            final(self)@ == emit_unbox(old(self)@, dst@, src@, to),
    {
        reveal(emit_unbox);
        let v = self.load_operand(src);
        match get_func(to) {
            Some(f) => {
                let r = self.fresh_ssa();
                self.out.append("  ");
                self.out.append(r.as_str());
                self.out.append(" = call ");
                self.out.append(llvm_type(to));
                self.out.append(" @");
                self.out.append(f);
                self.out.append("(%vredrs_value ");
                self.out.append(v.as_str());
                self.out.append(")\n");
                self.store_operand(dst, r.as_str(), to);
            },
            None => {
                self.store_operand(dst, v.as_str(), to);
            },
        }
    }

    /// Emits a binary operation.
    fn emit_bin(&mut self, op: BinOp, dst: &Operand, lhs: &Operand, rhs: &Operand, ty: TypeHint)
        ensures
            final(self)@ == emit_binary(old(self)@, op, dst@, lhs@, rhs@, ty),
    {
        reveal(emit_binary);
        let l = self.load_operand(lhs);
        let r = self.load_operand(rhs);
        let v = self.fresh_ssa();
        if op.is_dyn() {
            self.out.append("  ");
            self.out.append(v.as_str());
            self.out.append(" = call %vredrs_value @");
            self.out.append(dyn_bin_func(op));
            self.out.append("(%vredrs_value ");
            self.out.append(l.as_str());
            self.out.append(", %vredrs_value ");
            self.out.append(r.as_str());
            self.out.append(")\n");
            self.store_operand(dst, v.as_str(), TypeHint::Dynamic);
        } else if ty == TypeHint::F64 {
            self.out.append("  ");
            self.out.append(v.as_str());
            self.out.append(" = ");
            self.out.append(float_op(op));
            self.out.append(" double ");
            self.out.append(l.as_str());
            self.out.append(", ");
            self.out.append(r.as_str());
            self.out.append("\n");
            self.store_operand(dst, v.as_str(), TypeHint::F64);
        } else {
            self.out.append("  ");
            self.out.append(v.as_str());
            self.out.append(" = ");
            self.out.append(int_op(op));
            self.out.append(" i64 ");
            self.out.append(l.as_str());
            self.out.append(", ");
            self.out.append(r.as_str());
            self.out.append("\n");
            self.store_operand(dst, v.as_str(), TypeHint::I64);
        }
    }

    /// Emits a negation.
    fn emit_negation(&mut self, dst: &Operand, src: &Operand, ty: TypeHint)
        ensures
            final(self)@ == emit_neg(old(self)@, dst@, src@, ty),
    {
        reveal(emit_neg);
        let v = self.load_operand(src);
        let r = self.fresh_ssa();
        if ty == TypeHint::F64 {
            self.out.append("  ");
            self.out.append(r.as_str());
            self.out.append(" = fneg double ");
            self.out.append(v.as_str());
            self.out.append("\n");
        } else {
            self.out.append("  ");
            self.out.append(r.as_str());
            self.out.append(" = sub i64 0, ");
            self.out.append(v.as_str());
            self.out.append("\n");
        }
        self.store_operand(dst, r.as_str(), ty);
    }

    /// Emits a logical negation.
    fn emit_logical_not(&mut self, dst: &Operand, src: &Operand)
        ensures
            final(self)@ == emit_not(old(self)@, dst@, src@),
    {
        reveal(emit_not);
        let v = self.load_operand(src);
        let r = self.fresh_ssa();
        self.out.append("  ");
        self.out.append(r.as_str());
        self.out.append(" = xor i64 ");
        self.out.append(v.as_str());
        self.out.append(", 1\n");
        self.store_operand(dst, r.as_str(), TypeHint::Bool);
    }

    /// Emits a comparison.
    fn emit_comparison(&mut self, dst: &Operand, cond: Cond, lhs: &Operand, rhs: &Operand, ty: TypeHint)
        ensures
            final(self)@ == emit_compare(old(self)@, dst@, cond, lhs@, rhs@, ty),
    {
        reveal(emit_compare);
        let l = self.load_operand(lhs);
        let r = self.load_operand(rhs);
        let c = self.fresh_ssa();
        push_comparison(&mut self.out, c.as_str(), cond, l.as_str(), r.as_str(), ty);
        let e = self.fresh_ssa();
        self.out.append("  ");
        self.out.append(e.as_str());
        self.out.append(" = zext i1 ");
        self.out.append(c.as_str());
        self.out.append(" to i64\n");
        self.store_operand(dst, e.as_str(), TypeHint::Bool);
    }

    /// Emits a conditional branch on a comparison.
    fn emit_cond_branch(&mut self, cond: Cond, lhs: &Operand, rhs: &Operand, target: &str)
        ensures
            final(self)@ == emit_branch(old(self)@, cond, lhs@, rhs@, target@),
    {
        reveal(emit_branch);
        let l = self.load_operand(lhs);
        let r = self.load_operand(rhs);
        let n: usize = self.ssa_counter;
        let c = self.fresh_ssa();
        let ty = if lhs.ty() == TypeHint::F64 || rhs.ty() == TypeHint::F64 {
            TypeHint::F64
        } else {
            TypeHint::I64
        };
        push_comparison(&mut self.out, c.as_str(), cond, l.as_str(), r.as_str(), ty);
        push_branch(&mut self.out, n, target);
    }

    /// Emits a conditional branch on a value.
    fn emit_value_branch(&mut self, cond: &Operand, target: &str)
        ensures
            final(self)@ == emit_branch_true(old(self)@, cond@, target@),
    {
        reveal(emit_branch_true);
        let v = self.load_operand(cond);
        let n: usize = self.ssa_counter;
        let c = self.fresh_ssa();
        let ty = cond.ty();
        if ty == TypeHint::F64 {
            push_comparison(&mut self.out, c.as_str(), Cond::Ne, v.as_str(), "0.0", ty);
        } else {
            push_comparison(&mut self.out, c.as_str(), Cond::Ne, v.as_str(), "0", TypeHint::I64);
        }
        push_branch(&mut self.out, n, target);
    }

    /// Emits a load from memory.
    fn emit_load(&mut self, dst: &Operand, addr: &Operand, size: u32, ty: TypeHint)
        ensures
            final(self)@ == emit_memory_load(old(self)@, dst@, addr@, size, ty),
    {
        reveal(emit_memory_load);
        let a = self.load_operand(addr);
        let r = self.fresh_ssa();
        self.out.append("  ");
        self.out.append(r.as_str());
        self.out.append(" = load ");
        self.out.append(llvm_type(ty));
        self.out.append(", ");
        self.out.append(access_text(size));
        self.out.append("* ");
        self.out.append(a.as_str());
        self.out.append("\n");
        self.store_operand(dst, r.as_str(), ty);
    }

    /// Emits a store to memory.
    fn emit_store(&mut self, addr: &Operand, value: &Operand, size: u32, ty: TypeHint)
        ensures
            final(self)@ == emit_memory_store(old(self)@, addr@, value@, size, ty),
    {
        reveal(emit_memory_store);
        let a = self.load_operand(addr);
        let v = self.load_operand(value);
        self.out.append("  store ");
        self.out.append(llvm_type(ty));
        self.out.append(" ");
        self.out.append(v.as_str());
        self.out.append(", ");
        self.out.append(access_text(size));
        self.out.append("* ");
        self.out.append(a.as_str());
        self.out.append("\n");
    }

    /// Emits a stack allocation.
    fn emit_stack_alloc(&mut self, dst: &Operand, size: &Operand)
        ensures
            final(self)@ == emit_alloca(old(self)@, dst@, size@),
    {
        reveal(emit_alloca);
        let n = self.load_operand(size);
        let r = self.fresh_ssa();
        self.out.append("  ");
        self.out.append(r.as_str());
        self.out.append(" = alloca i8, i64 ");
        self.out.append(n.as_str());
        self.out.append("\n");
        self.store_operand(dst, r.as_str(), TypeHint::Ptr);
    }

    /// Emits a call.
    fn emit_direct_call(
        &mut self,
        dst: &Option<Operand>,
        func: &str,
        args: &Vec<Operand>,
        ret: &str,
        ty: TypeHint,
    )
        ensures
            final(self)@ == emit_call(
                old(self)@,
                opt_opnd(*dst),
                func@,
                opnds(args@),
                ret@,
                ty,
            ),
    {
        reveal(emit_call);
        let vs = self.load_operands(args);
        let list = typed_list(args, &vs);
        match dst {
            Some(d) => {
                let r = self.fresh_ssa();
                self.out.append("  ");
                self.out.append(r.as_str());
                self.out.append(" = call ");
                self.out.append(ret);
                self.out.append(" @");
                self.out.append(func);
                self.out.append("(");
                self.out.append(list.as_str());
                self.out.append(")\n");
                self.store_operand(d, r.as_str(), ty);
            },
            None => {
                self.out.append("  call void @");
                self.out.append(func);
                self.out.append("(");
                self.out.append(list.as_str());
                self.out.append(")\n");
            },
        }
    }

    /// Appends values as further arguments.
    fn push_more_args(&mut self, vs: &TextList)
        ensures
            final(self)@ == old(self)@.with(more_args(old(self)@.out, vs@, vs@.len())),
    {
        let mut k: usize = 0;
        while k < vs.len()
            invariant
                k <= vs@.len(),
                self@ == old(self)@.with(more_args(old(self)@.out, vs@, k as nat)),
            decreases vs@.len() - k,
        {
            self.out.append(", i64 ");
            self.out.append(vs.get(k));
            k = k + 1;
        }
    }

    /// Emits the call of a dynamic value.
    fn emit_dynamic_call(
        &mut self,
        dst: &Option<Operand>,
        callee: &Operand,
        args: &Vec<Operand>,
        ty: TypeHint,
    )
        ensures
            final(self)@ == emit_call_dyn(
                old(self)@,
                opt_opnd(*dst),
                callee@,
                opnds(args@),
                ty,
            ),
    {
        reveal(emit_call_dyn);
        let c = self.load_operand(callee);
        let vs = self.load_operands(args);
        match dst {
            Some(d) => {
                let r = self.fresh_ssa();
                self.out.append("  ");
                self.out.append(r.as_str());
                self.out.append(" = call ");
                self.out.append(llvm_type(ty));
                self.out.append(" @vredrs_call_dynamic(i64 ");
                self.out.append(c.as_str());
                self.push_more_args(&vs);
                self.out.append(")\n");
                self.store_operand(d, r.as_str(), ty);
            },
            None => {
                self.out.append("  call void @vredrs_call_dynamic(i64 ");
                self.out.append(c.as_str());
                self.push_more_args(&vs);
                self.out.append(")\n");
            },
        }
    }

    /// Emits a return.
    fn emit_return(&mut self, value: &Option<Operand>)
        ensures
            final(self)@ == emit_ret(old(self)@, opt_opnd(*value)),
    {
        reveal(emit_ret);
        match value {
            Some(o) => {
                let v = self.load_operand(o);
                self.out.append("  ret ");
                self.out.append(llvm_type(o.ty()));
                self.out.append(" ");
                self.out.append(v.as_str());
                self.out.append("\n");
            },
            None => {
                self.out.append("  ret void\n");
            },
        }
    }

    /// Loads the operands of an assembly block.
    fn load_asm_operands(&mut self, os: &Vec<AsmArg>) -> (r: TextList)
        ensures
            (final(self)@, r@) == loads(
                old(self)@,
                plain_operands(asm_args(os@)),
                os@.len(),
            ),
    {
        let mut out = TextList::new();
        let mut k: usize = 0;
        while k < os.len()
            invariant
                k <= os@.len(),
                (self@, out@) == loads(old(self)@, plain_operands(asm_args(os@)), k as nat),
            decreases os@.len() - k,
        {
            let v = self.load_operand(&os[k].operand);
            out.push(v);
            k = k + 1;
        }
        out
    }

    /// Emits an assembly block.
    fn emit_asm_call(&mut self, template: &str, ins: &Vec<AsmArg>, outs: &Vec<AsmArg>)
        ensures
            final(self)@ == emit_asm(old(self)@, template@, asm_args(ins@), asm_args(outs@)),
    {
        reveal(emit_asm);
        let cons = constraint_text(outs, ins);
        let vs = self.load_asm_operands(ins);
        let t = escape_template(template);
        let list = vs.join(", ");
        self.out.append("  call void asm sideeffect \"");
        self.out.append(t.as_str());
        self.out.append("\", \"");
        self.out.append(cons.as_str());
        self.out.append("\"(");
        self.out.append(list.as_str());
        self.out.append(")\n");
    }

    /// Emits an instruction that leaves a line of its own.
    fn emit_line(&mut self, n: &StaticInsn)
        ensures
            final(self)@ == emit_note(old(self)@, n@),
    {
        reveal(emit_note);
        match n {
            StaticInsn::Label(l) => {
                let s = sanitize_name(l.as_str());
                self.out.append("; label ");
                self.out.append(s.as_str());
                self.out.append("\n");
                self.out.append(s.as_str());
                self.out.append(":\n");
            },
            StaticInsn::Comment(c) => {
                self.out.append("  ; ");
                self.out.append(c.as_str());
                self.out.append("\n");
            },
            StaticInsn::SrcLoc { line, col } => {
                self.out.append("  ; srcloc ");
                push_dec(&mut self.out, *line);
                self.out.append(":");
                push_dec(&mut self.out, *col);
                self.out.append("\n");
            },
            StaticInsn::Jump { target } => {
                let s = sanitize_name(target.as_str());
                self.out.append("  br label %");
                self.out.append(s.as_str());
                self.out.append("\n");
            },
            StaticInsn::PipelineMarker { name } => {
                self.out.append("  ; @pipeline ");
                self.out.append(name.as_str());
                self.out.append("\n");
            },
            StaticInsn::IsrEntry { group, priority } => {
                self.out.append("  ; @isr_group ");
                self.out.append(group.as_str());
                self.out.append(" prio=");
                push_int(&mut self.out, *priority);
                self.out.append("\n");
            },
            StaticInsn::WcetNote { cycles, budget } => {
                self.out.append("  ; wcet cycles=");
                push_dec(&mut self.out, *cycles);
                self.out.append(" budget=");
                push_dec(&mut self.out, *budget);
                self.out.append("\n");
            },
            StaticInsn::DiffMeta { symbol, offset } => {
                self.out.append("  ; diffmeta ");
                self.out.append(symbol.as_str());
                self.out.append(" +0x");
                push_hex(&mut self.out, *offset, 0, false);
                self.out.append("\n");
            },
            StaticInsn::Push { src } => {
                let v = self.load_operand(src);
                self.out.append("  ; push ");
                self.out.append(v.as_str());
                self.out.append("\n");
            },
            StaticInsn::Pop { dst } => {
                let r = self.fresh_ssa();
                self.out.append("  ; pop -> ");
                self.out.append(r.as_str());
                self.out.append("\n");
                self.store_operand(dst, r.as_str(), TypeHint::Dynamic);
            },
            StaticInsn::StackFree { ptr, .. } => {
                let p = self.load_operand(ptr);
                self.out.append("  call void @llvm.lifetime.end.p0i8(i64 -1, i8* ");
                self.out.append(p.as_str());
                self.out.append(")\n");
            },
            StaticInsn::Prefetch { addr, .. } => {
                let a = self.load_operand(addr);
                self.out.append("  call void @llvm.prefetch.p0i8(i8* ");
                self.out.append(a.as_str());
                self.out.append(", i32 0, i32 3, i32 1)\n");
            },
            _ => {},
        }
    }

    /// Emits an instruction.
    fn emit_insn(&mut self, n: &StaticInsn)
        ensures
            final(self)@ == emit_one(old(self)@, n@),
    {
        reveal(emit_one);
        match n {
            StaticInsn::Mov { dst, src, ty } => {
                let v = self.load_operand(src);
                self.store_operand(dst, v.as_str(), *ty);
            },
            StaticInsn::Box { dst, src, from } => {
                self.emit_boxing(dst, src, *from);
            },
            StaticInsn::Unbox { dst, src, to } => {
                self.emit_unboxing(dst, src, *to);
            },
            StaticInsn::Bin { op, dst, lhs, rhs, ty } => {
                self.emit_bin(*op, dst, lhs, rhs, *ty);
            },
            StaticInsn::Neg { dst, src, ty } => {
                self.emit_negation(dst, src, *ty);
            },
            StaticInsn::Not { dst, src, .. } => {
                self.emit_logical_not(dst, src);
            },
            StaticInsn::Cmp { dst, cond, lhs, rhs, ty } => {
                self.emit_comparison(dst, *cond, lhs, rhs, *ty);
            },
            StaticInsn::Branch { cond, lhs, rhs, target } => {
                self.emit_cond_branch(*cond, lhs, rhs, target.as_str());
            },
            StaticInsn::BranchTrue { cond, target } => {
                self.emit_value_branch(cond, target.as_str());
            },
            StaticInsn::Load { dst, addr, size, ty } => {
                self.emit_load(dst, addr, *size, *ty);
            },
            StaticInsn::Store { addr, value, size, ty } => {
                self.emit_store(addr, value, *size, *ty);
            },
            StaticInsn::Alloca { dst, size, .. } => {
                self.emit_stack_alloc(dst, size);
            },
            StaticInsn::Call { dst, func, args, ty } => {
                self.emit_direct_call(dst, func.as_str(), args, llvm_type(*ty), *ty);
            },
            StaticInsn::CallDyn { dst, callee, args, ty } => {
                self.emit_dynamic_call(dst, callee, args, *ty);
            },
            StaticInsn::RuntimeCall { dst, func, args } => {
                self.emit_direct_call(dst, func.as_str(), args, "i64", TypeHint::Dynamic);
            },
            StaticInsn::Ret { value } => {
                self.emit_return(value);
            },
            StaticInsn::Asm { template, inputs, outputs, .. } => {
                self.emit_asm_call(template.as_str(), inputs, outputs);
            },
            _ => {
                self.emit_line(n);
            },
        }
    }

    /// Emits instructions.
    fn emit_insns(&mut self, ns: &Vec<StaticInsn>)
        ensures
            final(self)@ == emit_body(old(self)@, insns(ns@), ns@.len()),
    {
        let mut k: usize = 0;
        while k < ns.len()
            invariant
                k <= ns@.len(),
                self@ == emit_body(old(self)@, insns(ns@), k as nat),
            decreases ns@.len() - k,
        {
            self.emit_insn(&ns[k]);
            k = k + 1;
        }
    }

    /// Gives every register a stack slot.
    fn emit_slots(&mut self, f: &IrFunction, regs: &TextList)
        requires
            params_match(f@),
            regs@ == fn_regs(f@),
        ensures
            final(self)@ == alloc_slots(old(self)@, f@, regs@, regs@.len()),
    {
        let mut k: usize = 0;
        while k < regs.len()
            invariant
                k <= regs@.len(),
                params_match(f@),
                regs@ == fn_regs(f@),
                self@ == alloc_slots(old(self)@, f@, regs@, k as nat),
            decreases regs@.len() - k,
        {
            let r = regs.get(k);
            let t: TypeHint = slot_hint(f, r);
            let slot = self.fresh_ssa();
            self.out.append("  ");
            self.out.append(slot.as_str());
            self.out.append(" = alloca ");
            self.out.append(llvm_type(t));
            self.out.append(", align 8\n");
            self.ssa_map.insert(text(r), slot);
            k = k + 1;
        }
    }

    /// Stores the parameters to their stack slots.
    fn emit_param_stores(&mut self, f: &IrFunction)
        requires
            forall|i: int|
                f@.params.len() <= i < f@.param_regs.len() ==> !old(self)@.slots.contains_key(
                    #[trigger] f@.param_regs[i],
                ),
        ensures
            final(self)@ == old(self)@.with(
                store_params(old(self)@.out, old(self)@.slots, f@, f@.param_regs.len()),
            ),
    {
        let mut k: usize = 0;
        while k < f.param_regs.len()
            invariant
                k <= f.param_regs@.len(),
                forall|i: int|
                    f@.params.len() <= i < f@.param_regs.len() ==> !old(self)@.slots.contains_key(
                        #[trigger] f@.param_regs[i],
                    ),
                self@ == old(self)@.with(
                    store_params(old(self)@.out, old(self)@.slots, f@, k as nat),
                ),
            decreases f.param_regs@.len() - k,
        {
            let r = f.param_regs[k].as_str();
            assert(f@.param_regs[k as int] == r@);
            match self.ssa_map.get(r) {
                Some(slot) => {
                    let t: TypeHint = f.params[k].1;
                    let n = sanitize_name(r);
                    self.out.append("  store ");
                    self.out.append(llvm_type(t));
                    self.out.append(" %");
                    self.out.append(n.as_str());
                    self.out.append(", ");
                    self.out.append(llvm_type(t));
                    self.out.append("* ");
                    self.out.append(slot);
                    self.out.append("\n");
                },
                None => {},
            }
            k = k + 1;
        }
    }

    /// Emits a function.
    fn emit_function(&mut self, f: &IrFunction)
        requires
            params_match(f@),
        ensures
            final(self)@ == emit_fn(old(self)@, f@),
    {
        reveal(function_start);
        reveal(function_end);
        self.ssa_map.clear();
        self.ssa_counter = 0;
        let params = param_list(f);
        self.out.append("\ndefine ");
        self.out.append(llvm_type(f.return_ty));
        self.out.append(" @");
        self.out.append(f.name.as_str());
        self.out.append("(");
        self.out.append(params.as_str());
        self.out.append(") {\nentry:\n");
        let regs = registers(&f.body);
        let ghost head = self@;
        self.emit_slots(f, &regs);
        proof {
            lemma_slots(head, f@, regs@, regs@.len());
        }
        self.emit_param_stores(f);
        self.emit_insns(&f.body);
        if !block_ended(self.out.as_str()) {
            self.out.append("  ret ");
            self.out.append(default_value(f.return_ty));
            self.out.append("\n");
        }
        self.out.append("}\n");
    }

    /// Emits the string constants.
    fn emit_string_pool(&mut self, pool: &Vec<String>)
        ensures
            final(self)@ == emit_strings(old(self)@, texts(pool@), pool@.len()),
    {
        let mut k: usize = 0;
        while k < pool.len()
            invariant
                k <= pool@.len(),
                self@ == emit_strings(old(self)@, texts(pool@), k as nat),
            decreases pool@.len() - k,
        {
            reveal(string_name);
            let n = numbered("@.str", k as u64);
            let t = array_text(pool[k].as_str());
            let e = escape_llvm_str(pool[k].as_str());
            self.out.append(n.as_str());
            self.out.append(" = private unnamed_addr constant ");
            self.out.append(t.as_str());
            self.out.append(" c\"");
            self.out.append(e.as_str());
            self.out.append("\\00\"\n");
            self.str_globals.push(t);
            k = k + 1;
        }
    }

    /// Emits the declarations of runtime functions.
    fn emit_declarations(&mut self, es: &TextList)
        ensures
            final(self)@ == old(self)@.with(declarations(old(self)@.out, es@, es@.len())),
    {
        let mut k: usize = 0;
        while k < es.len()
            invariant
                k <= es@.len(),
                self@ == old(self)@.with(declarations(old(self)@.out, es@, k as nat)),
            decreases es@.len() - k,
        {
            let e = es.get(k);
            self.out.append("declare ");
            self.out.append(extern_return_ty(e));
            self.out.append(" @");
            self.out.append(e);
            self.out.append("(");
            self.out.append(extern_param_sig(e));
            self.out.append(")\n");
            k = k + 1;
        }
    }

    /// Emits a module as LLVM text.
    pub fn emit_module(&mut self, m: &IrModule) -> (r: String)
        requires
            module_ok(m@),
        ensures
            final(self)@ == module_state(old(self)@, m@),
            r@ == final(self)@.out,
            r@ == module_state(fresh_ll(), m@).out,
    {
        proof {
            law_modules_are_emitted_independently(self@, fresh_ll(), m@);
        }
        reveal(module_start);
        self.out = String::new();
        assert(self.out@ =~= Seq::<char>::empty());
        self.str_globals = TextList::new();
        self.out.append("; Vredrs LLVM IR (gradual: static + dynamic)\n");
        self.emit_string_pool(&m.string_pool);
        let es = collect_externs(m);
        self.emit_declarations(&es);
        if any_value_function(&es) {
            self.out.append("%vredrs_value = type { i8, i64 }\n");
        }
        let ghost start = self@;
        let mut k: usize = 0;
        while k < m.functions.len()
            invariant
                k <= m.functions@.len(),
                module_ok(m@),
                self@ == emit_fns(start, ir_fns(m.functions@), k as nat),
            decreases m.functions@.len() - k,
        {
            assert(m@.functions[k as int] == m.functions@[k as int]@);
            self.emit_function(&m.functions[k]);
            k = k + 1;
        }
        text(self.out.as_str())
    }
}

/// Whether the text ends with an instruction that ends a block.
fn block_ended(out: &str) -> (r: bool)
    ensures
        r == ends_block(out@),
{
    let t = trim_end(out);
    let v: Vec<char> = chars(t.as_str());
    let mut i: usize = v.len();
    assert(v@.take(i as int) =~= v@);
    assert(last_line(v@) =~= last_line(v@.take(i as int)) + v@.skip(i as int));
    while i > 0 && v[i - 1] != '\n'
        invariant
            i <= v@.len(),
            last_line(v@) == last_line(v@.take(i as int)) + v@.skip(i as int),
        decreases i,
    {
        let ghost h = v@.take(i as int);
        assert(h.drop_last() =~= v@.take(i - 1));
        assert(v@.skip(i - 1) =~= seq![v@[i - 1]] + v@.skip(i as int));
        assert(last_line(h) =~= last_line(v@.take(i - 1)) + seq![v@[i - 1]]);
        i = i - 1;
        assert(last_line(v@) =~= last_line(v@.take(i as int)) + v@.skip(i as int));
    }
    let l = slice_text(&v, i, v.len());
    assert(last_line(v@.take(i as int)) =~= Seq::<char>::empty());
    assert(l@ =~= last_line(v@));
    starts_with(l.as_str(), "  ret ") || starts_with(l.as_str(), "  br ") || starts_with(
        l.as_str(),
        "  unreachable",
    ) || starts_with(l.as_str(), "  switch ")
}

/// Appends the comparison of two values.
fn push_comparison(out: &mut String, c: &str, cond: Cond, l: &str, r: &str, ty: TypeHint)
    ensures
        final(out)@ == compared(old(out)@, c@, cond, l@, r@, ty),
{
    reveal(compared);
    out.append("  ");
    out.append(c);
    if ty == TypeHint::F64 {
        out.append(" = fcmp ");
        out.append(cond_to_llvm_pred(cond, ty));
        out.append(" double ");
    } else {
        out.append(" = icmp ");
        out.append(cond_to_llvm_pred(cond, ty));
        out.append(" i64 ");
    }
    out.append(l);
    out.append(", ");
    out.append(r);
    out.append("\n");
}

/// Appends the conditional branch on value `n`.
fn push_branch(out: &mut String, n: usize, target: &str)
    ensures
        final(out)@ == branched(old(out)@, n, target@),
{
    reveal(branched);
    reveal(value_name);
    reveal(next_label);
    let c = numbered("%", n as u64);
    let t = sanitize_name(target);
    let next = numbered("next$", n as u64);
    out.append("  br i1 ");
    out.append(c.as_str());
    out.append(", label %");
    out.append(t.as_str());
    out.append(", label %");
    out.append(next.as_str());
    out.append("\n");
    out.append(next.as_str());
    out.append(":\n");
}

/// The type of a string constant.
fn array_text(s: &str) -> (r: String)
    ensures
        r@ == array_type(s@),
{
    reveal(array_type);
    let size: u128 = byte_length(s) as u128 + 1;
    let mut r = text("[");
    push_wide(&mut r, size);
    r.append(" x i8]");
    r
}

/// The LLVM instruction of a static floating-point operation.
fn float_op(op: BinOp) -> (r: &'static str)
    ensures
        r@ == float_insn(op),
{
    reveal(float_insn);
    match op {
        BinOp::Sub => "fsub",
        BinOp::Mul => "fmul",
        BinOp::Div => "fdiv",
        _ => "fadd",
    }
}

/// The LLVM instruction of a static integer operation.
fn int_op(op: BinOp) -> (r: &'static str)
    ensures
        r@ == int_insn(op),
{
    reveal(int_insn);
    match op {
        BinOp::Sub => "sub",
        BinOp::Mul => "mul",
        BinOp::Div => "sdiv",
        BinOp::Mod => "srem",
        BinOp::And => "and",
        BinOp::Or => "or",
        BinOp::Xor => "xor",
        BinOp::Shl => "shl",
        BinOp::Shr => "ashr",
        _ => "add",
    }
}

/// The LLVM type of a memory access of `n` bytes.
fn access_text(n: u32) -> (r: &'static str)
    ensures
        r@ == access_type(n),
{
    if n == 1 {
        "i8"
    } else if n == 2 {
        "i16"
    } else if n == 4 {
        "i32"
    } else {
        "i64"
    }
}

/// The arguments of a call with their types.
fn typed_list(os: &Vec<Operand>, vs: &TextList) -> (r: String)
    requires
        os@.len() == vs@.len(),
    ensures
        r@ == joined(typed_args(opnds(os@), vs@), ", "@),
{
    let mut list = TextList::new();
    let mut i: usize = 0;
    while i < os.len()
        invariant
            i <= os@.len(),
            os@.len() == vs@.len(),
            list@ == typed_args(opnds(os@), vs@).take(i as int),
        decreases os@.len() - i,
    {
        let mut s = text(llvm_type(os[i].ty()));
        s.append(" ");
        s.append(vs.get(i));
        list.push(s);
        i = i + 1;
        assert(list@ =~= typed_args(opnds(os@), vs@).take(i as int));
    }
    assert(list@ =~= typed_args(opnds(os@), vs@));
    list.join(", ")
}

/// The constraints of assembly operands.
fn constraint_join(os: &Vec<AsmArg>, prefix: &str) -> (r: String)
    ensures
        r@ == joined(constraint_list(asm_args(os@), prefix@), ","@),
{
    let mut list = TextList::new();
    let mut i: usize = 0;
    while i < os.len()
        invariant
            i <= os@.len(),
            list@ == constraint_list(asm_args(os@), prefix@).take(i as int),
        decreases os@.len() - i,
    {
        list.push(cat(prefix, os[i].constraint.as_str()));
        i = i + 1;
        assert(list@ =~= constraint_list(asm_args(os@), prefix@).take(i as int));
    }
    assert(list@ =~= constraint_list(asm_args(os@), prefix@));
    list.join(",")
}

/// The constraints of an assembly block.
fn constraint_text(outs: &Vec<AsmArg>, ins: &Vec<AsmArg>) -> (r: String)
    ensures
        r@ == constraint_string(asm_args(outs@), asm_args(ins@)),
{
    let mut s = constraint_join(outs, "=");
    s.append(
        if outs.len() > 0 && ins.len() > 0 {
            ","
        } else {
            ""
        },
    );
    let t = constraint_join(ins, "");
    s.append(t.as_str());
    s
}

/// The type of the stack slot of a register.
fn slot_hint(f: &IrFunction, r: &str) -> (t: TypeHint)
    requires
        params_match(f@),
        fn_regs(f@).contains(r@),
    ensures
        t == slot_type(f@, r@),
{
    let mut i: usize = 0;
    while i < f.param_regs.len()
        invariant
            i <= f.param_regs@.len(),
            params_match(f@),
            fn_regs(f@).contains(r@),
            param_position(f@.param_regs, r@, 0) == param_position(f@.param_regs, r@, i as int),
        decreases f.param_regs@.len() - i,
    {
        if same(f.param_regs[i].as_str(), r) {
            assert(f@.param_regs[i as int] == r@);
            return f.params[i].1;
        }
        i = i + 1;
    }
    TypeHint::I64
}

/// The parameters of a function with their types.
fn param_list(f: &IrFunction) -> (r: String)
    ensures
        r@ == joined(param_texts(f@), ", "@),
{
    let mut list = TextList::new();
    let n: usize = if f.param_regs.len() < f.params.len() {
        f.param_regs.len()
    } else {
        f.params.len()
    };
    let mut i: usize = 0;
    while i < n
        invariant
            i <= n,
            n == param_count(f@),
            n <= f.params@.len(),
            n <= f.param_regs@.len(),
            list@ == param_texts(f@).take(i as int),
        decreases n - i,
    {
        let mut s = text(llvm_type(f.params[i].1));
        let r = sanitize_name(f.param_regs[i].as_str());
        s.append(" %");
        s.append(r.as_str());
        list.push(s);
        i = i + 1;
        assert(list@ =~= param_texts(f@).take(i as int));
    }
    assert(list@ =~= param_texts(f@));
    list.join(", ")
}

/// Whether some declaration is of a runtime function on dynamic values.
fn any_value_function(es: &TextList) -> (r: bool)
    ensures
        r == uses_values(es@),
{
    let mut k: usize = 0;
    while k < es.len()
        invariant
            k <= es@.len(),
            forall|i: int| 0 <= i < k ==> !begins(#[trigger] es@[i], "vredrs_value_"@),
        decreases es@.len() - k,
    {
        if starts_with(es.get(k), "vredrs_value_") {
            assert(begins(es@[k as int], "vredrs_value_"@));
            return true;
        }
        k = k + 1;
    }
    false
}

/// The registers with a stack slot are those that got one.
proof fn lemma_slots(st: Ll, f: IrFn, regs: Seq<Seq<char>>, k: nat)
    requires
        k <= regs.len(),
    ensures
        forall|r: Seq<char>| #[trigger]
            alloc_slots(st, f, regs, k).slots.contains_key(r) ==> st.slots.contains_key(r)
                || regs.contains(r),
    decreases k,
{
    if k > 0 {
        lemma_slots(st, f, regs, (k - 1) as nat);
        let s = alloc_slots(st, f, regs, (k - 1) as nat);
        assert(regs.contains(regs[k - 1]));
        assert forall|r: Seq<char>| #[trigger]
            alloc_slots(st, f, regs, k).slots.contains_key(r) implies st.slots.contains_key(r)
            || regs.contains(r) by {
            if r != regs[k - 1] {
                assert(s.slots.contains_key(r));
            }
        }
    }
}

/// States that agree in their text and string constants agree in both behind a
/// function.
proof fn lemma_same_functions(a: Ll, b: Ll, fs: Seq<IrFn>, k: nat)
    requires
        a.out == b.out,
        a.strs == b.strs,
    ensures
        emit_fns(a, fs, k).out == emit_fns(b, fs, k).out,
        emit_fns(a, fs, k).strs == emit_fns(b, fs, k).strs,
    decreases k,
{
    if k > 0 && k <= fs.len() {
        lemma_same_functions(a, b, fs, (k - 1) as nat);
        reveal(function_start);
    }
}

/// States that agree in their text and string constants agree in both behind
/// further string constants.
proof fn lemma_same_strings(a: Ll, b: Ll, pool: Seq<Seq<char>>, k: nat)
    requires
        a.out == b.out,
        a.strs == b.strs,
    ensures
        emit_strings(a, pool, k).out == emit_strings(b, pool, k).out,
        emit_strings(a, pool, k).strs == emit_strings(b, pool, k).strs,
    decreases k,
{
    if k > 0 && k <= pool.len() {
        lemma_same_strings(a, b, pool, (k - 1) as nat);
    }
}

/// The text of a module does not depend on what its emitter emitted before: an
/// emitter that is used again gives what a new one gives.
pub proof fn law_modules_are_emitted_independently(a: Ll, b: Ll, m: IrMod)
    ensures
        module_state(a, m).out == module_state(b, m).out,
{
    reveal(module_start);
    let head = Seq::<char>::empty() + "; Vredrs LLVM IR (gradual: static + dynamic)\n"@;
    lemma_same_strings(
        Ll { out: head, strs: Seq::empty(), ..a },
        Ll { out: head, strs: Seq::empty(), ..b },
        m.string_pool,
        m.string_pool.len(),
    );
    lemma_same_functions(
        module_start(a, m),
        module_start(b, m),
        m.functions,
        m.functions.len(),
    );
}

/// The LLVM text of a module.
pub fn emit_module_string(m: &IrModule) -> (r: String)
    requires
        module_ok(m@),
    ensures
        r@ == module_state(fresh_ll(), m@).out,
{
    let mut e = LlvmEmitter::new();
    e.emit_module(m)
}

} // verus!
