//! Lowering of syntax trees to PIR.
//!
//! Functions are lowered permissively: a statement that has no physical form
//! becomes a comment.  Raw blocks at the top level are lowered strictly: the
//! first statement without a physical form ends the compilation.

use vstd::prelude::*;
use crate::ast::{
    AsmOperand, Assignee, AssignOp, AssignStmt, BasicType, BinaryOp, CallExpr, Expr, Identifier,
    MethodCallExpr, Stmt, TypeExpr,
};
use crate::cstar::annotations::text_outcome;
use crate::cstar::pir::{
    Node, nodes_of, Operand, operands, PirNode, PirOperand, PirType, ptr_to, push_node,
};
use crate::error::{CompilerError, fail, outcome};
use crate::text::{
    begins, cat, contains, dec, int_dec, int_text, joined, occurs, push_dec, same, starts_with,
    text, TextList, texts,
};

verus! {

// ---------------------------------------------------------------------------
// Operands
// ---------------------------------------------------------------------------

/// The quotient of two integers, rounded towards zero; zero divided by
/// anything is zero.
pub open spec fn quotient(l: int, r: int) -> int {
    if l >= 0 && r > 0 {
        l / r
    } else if l < 0 && r < 0 {
        (-l) / (-r)
    } else if l < 0 {
        -((-l) / r)
    } else {
        -(l / (-r))
    }
}

/// The remainder that belongs to the quotient rounded towards zero.
pub open spec fn remainder(l: int, r: int) -> int {
    l - quotient(l, r) * r
}

/// The truth value as a number.
pub open spec fn bit(b: bool) -> i64 {
    if b {
        1
    } else {
        0
    }
}

/// The value of an operation on two constants, in two's complement; none for a
/// division by zero and for operations without an integer value.
pub open spec fn fold(op: BinaryOp, l: i64, r: i64) -> Option<i64> {
    match op {
        BinaryOp::Add => Some(l.wrapping_add(r)),
        BinaryOp::Sub => Some(l.wrapping_sub(r)),
        BinaryOp::Mul => Some(l.wrapping_mul(r)),
        BinaryOp::Div | BinaryOp::FloorDiv => if r == 0 {
            None
        } else if l == i64::MIN && r == -1 {
            Some(i64::MIN)
        } else {
            Some(quotient(l as int, r as int) as i64)
        },
        BinaryOp::Mod => if r == 0 {
            None
        } else {
            Some(remainder(l as int, r as int) as i64)
        },
        BinaryOp::BitAnd => Some(l & r),
        BinaryOp::BitOr => Some(l | r),
        BinaryOp::BitXor => Some(l ^ r),
        BinaryOp::Shl => Some(l << (r & 63)),
        BinaryOp::Shr => Some(l >> (r & 63)),
        BinaryOp::Eq => Some(bit(l == r)),
        BinaryOp::Ne => Some(bit(l != r)),
        BinaryOp::Lt => Some(bit(l < r)),
        BinaryOp::Gt => Some(bit(l > r)),
        BinaryOp::Le => Some(bit(l <= r)),
        BinaryOp::Ge => Some(bit(l >= r)),
        _ => None,
    }
}

/// The truth value as a number.
fn bit_of(b: bool) -> (r: i64)
    ensures
        r == bit(b),
{
    if b {
        1
    } else {
        0
    }
}

/// A remainder and the quotient that it belongs to, for signs given apart.
proof fn lemma_remainder(x: int, d: int)
    requires
        x >= 0,
        d > 0,
    ensures
        x % d == x - (x / d) * d,
        (-x) - (-(x / d)) * d == -(x % d),
        x - (-(x / d)) * (-d) == x % d,
        (-x) - (x / d) * (-d) == -(x % d),
        x == 0 ==> x / d == 0 && x % d == 0,
{
    if x == 0 {
        vstd::arithmetic::div_mod::lemma_div_of0(d);
        assert(x % d == 0) by (nonlinear_arith)
            requires
                x == 0,
                d > 0,
        ;
    }
    vstd::arithmetic::div_mod::lemma_fundamental_div_mod(x, d);
    assert(d * (x / d) == (x / d) * d) by (nonlinear_arith);
    assert((-(x / d)) * d == -((x / d) * d)) by (nonlinear_arith);
    assert((-(x / d)) * (-d) == (x / d) * d) by (nonlinear_arith);
    assert((x / d) * (-d) == -((x / d) * d)) by (nonlinear_arith);
}

/// The quotient rounded towards zero, in two's complement.
fn divided(l: i64, r: i64) -> (q: i64)
    requires
        r != 0,
    ensures
        q == (if l == i64::MIN && r == -1 {
            i64::MIN
        } else {
            quotient(l as int, r as int) as i64
        }),
{
    proof {
        if !(l == i64::MIN && r == -1) {
            lemma_quotient_fits(l, r);
        }
    }
    match l.checked_div(r) {
        Some(q) => q,
        None => i64::MIN,
    }
}

/// The remainder that belongs to the quotient rounded towards zero.
fn left_over(l: i64, r: i64) -> (q: i64)
    requires
        r != 0,
    ensures
        q == remainder(l as int, r as int) as i64,
{
    if r == -1 {
        assert((-(l as int)) / 1 == -(l as int)) by (nonlinear_arith);
        assert((l as int) / 1 == l as int) by (nonlinear_arith);
        return 0;
    }
    proof {
        lemma_remainder_fits(l, r);
        if l >= 0 && r > 0 {
            lemma_remainder(l as int, r as int);
        } else if l < 0 && r < 0 {
            lemma_remainder(-(l as int), -(r as int));
        } else if l < 0 {
            lemma_remainder(-(l as int), r as int);
        } else {
            lemma_remainder(l as int, -(r as int));
        }
    }
    match l.checked_rem(r) {
        Some(q) => q,
        None => 0,
    }
}

/// Folds an operation on two constants.
pub fn fold_binop(op: BinaryOp, l: i64, r: i64) -> (v: Option<i64>)
    ensures
        v == fold(op, l, r),
{
    match op {
        BinaryOp::Add => Some(l.wrapping_add(r)),
        BinaryOp::Sub => Some(l.wrapping_sub(r)),
        BinaryOp::Mul => Some(l.wrapping_mul(r)),
        BinaryOp::Div | BinaryOp::FloorDiv => {
            if r == 0 {
                None
            } else {
                Some(divided(l, r))
            }
        },
        BinaryOp::Mod => {
            if r == 0 {
                None
            } else {
                Some(left_over(l, r))
            }
        },
        BinaryOp::BitAnd => Some(l & r),
        BinaryOp::BitOr => Some(l | r),
        BinaryOp::BitXor => Some(l ^ r),
        BinaryOp::Shl => {
            assert(0 <= r & 63 <= 63) by (bit_vector);
            Some(l << (r & 63))
        },
        BinaryOp::Shr => {
            assert(0 <= r & 63 <= 63) by (bit_vector);
            Some(l >> (r & 63))
        },
        BinaryOp::Eq => Some(bit_of(l == r)),
        BinaryOp::Ne => Some(bit_of(l != r)),
        BinaryOp::Lt => Some(bit_of(l < r)),
        BinaryOp::Gt => Some(bit_of(l > r)),
        BinaryOp::Le => Some(bit_of(l <= r)),
        BinaryOp::Ge => Some(bit_of(l >= r)),
        _ => None,
    }
}

/// The quotient of two 64-bit numbers is one, but for the least by minus one.
pub(crate) proof fn lemma_quotient_fits(l: i64, r: i64)
    requires
        r != 0,
        !(l == i64::MIN && r == -1),
    ensures
        i64::MIN <= quotient(l as int, r as int) <= i64::MAX,
        l == 0 ==> quotient(l as int, r as int) == 0,
{
    let x = if l < 0 {
        -(l as int)
    } else {
        l as int
    };
    let d = if r < 0 {
        -(r as int)
    } else {
        r as int
    };
    assert(0 <= x / d <= x) by (nonlinear_arith)
        requires
            x >= 0,
            d > 0,
    ;
    lemma_remainder(x, d);
    if l == i64::MIN && r < 0 {
        assert(x / d < x) by (nonlinear_arith)
            requires
                x > 0,
                d > 1,
        ;
    }
}

/// The remainder of two 64-bit numbers is one.
pub(crate) proof fn lemma_remainder_fits(l: i64, r: i64)
    requires
        r != 0,
        r != -1,
    ensures
        i64::MIN < remainder(l as int, r as int) <= i64::MAX,
{
    let x = if l < 0 {
        -(l as int)
    } else {
        l as int
    };
    let d = if r < 0 {
        -(r as int)
    } else {
        r as int
    };
    lemma_remainder(x, d);
    assert(0 <= x % d < d) by (nonlinear_arith)
        requires
            x >= 0,
            d > 0,
    ;
}

/// The operand that an expression is: a constant, a name, or a folded
/// operation; zero stands for every other expression.
pub open spec fn operand_of(e: Expr) -> Operand
    decreases e,
{
    match e {
        Expr::Integer(i) => Operand::Int(i.value),
        Expr::Bool(b) => Operand::Bool(b.value),
        Expr::Null => Operand::NullPtr,
        Expr::Identifier(id) => Operand::Var(id.name@),
        Expr::Cast(c) => operand_of(*c.expr),
        Expr::Binary(b) => match (operand_of(*b.left), operand_of(*b.right)) {
            (Operand::Int(l), Operand::Int(r)) => match fold(b.operator, l, r) {
                Some(v) => Operand::Int(v),
                None => Operand::Int(0),
            },
            _ => Operand::Int(0),
        },
        _ => Operand::Int(0),
    }
}

/// Lowers an expression to an operand.
pub fn lower_operand_expr(e: &Expr) -> (r: PirOperand)
    ensures
        r@ == operand_of(*e),
    decreases e,
{
    match e {
        Expr::Integer(i) => PirOperand::Int(i.value),
        Expr::Bool(b) => PirOperand::Bool(b.value),
        Expr::Null => PirOperand::NullPtr,
        Expr::Identifier(id) => PirOperand::Var(id.name.clone()),
        Expr::Cast(c) => lower_operand_expr(&c.expr),
        Expr::Binary(b) => {
            let lhs = lower_operand_expr(&b.left);
            let rhs = lower_operand_expr(&b.right);
            match (lhs, rhs) {
                (PirOperand::Int(l), PirOperand::Int(r)) => match fold_binop(b.operator, l, r) {
                    Some(v) => PirOperand::Int(v),
                    None => PirOperand::Int(0),
                },
                _ => PirOperand::Int(0),
            }
        },
        _ => PirOperand::Int(0),
    }
}

/// The operands that expressions are.
pub open spec fn operands_from(es: Seq<Expr>) -> Seq<Operand> {
    Seq::new(es.len(), |i: int| operand_of(es[i]))
}

/// Lowers expressions to operands.
fn lower_operands(es: &Vec<Expr>) -> (r: Vec<PirOperand>)
    ensures
        operands(r@) == operands_from(es@),
{
    let mut out: Vec<PirOperand> = Vec::new();
    let mut i: usize = 0;
    while i < es.len()
        invariant
            i <= es@.len(),
            out@.len() == i,
            forall|j: int| 0 <= j < i ==> (#[trigger] out@[j])@ == operand_of(es@[j]),
        decreases es@.len() - i,
    {
        out.push(lower_operand_expr(&es[i]));
        i = i + 1;
    }
    assert(operands(out@) =~= operands_from(es@));
    out
}

/// The input operands of an inline assembly block.
pub open spec fn asm_inputs(ops: Seq<AsmOperand>) -> Seq<Operand> {
    Seq::new(ops.len(), |i: int| operand_of(ops[i].expr))
}

/// The output constraints of an inline assembly block.
pub open spec fn asm_outputs(ops: Seq<AsmOperand>) -> Seq<Seq<char>> {
    Seq::new(ops.len(), |i: int| ops[i].constraint@)
}

/// Lowers the inputs of an inline assembly block.
fn lower_asm_inputs(ops: &Vec<AsmOperand>) -> (r: Vec<PirOperand>)
    ensures
        operands(r@) == asm_inputs(ops@),
{
    let mut out: Vec<PirOperand> = Vec::new();
    let mut i: usize = 0;
    while i < ops.len()
        invariant
            i <= ops@.len(),
            out@.len() == i,
            forall|j: int| 0 <= j < i ==> (#[trigger] out@[j])@ == operand_of(ops@[j].expr),
        decreases ops@.len() - i,
    {
        out.push(lower_operand_expr(&ops[i].expr));
        i = i + 1;
    }
    assert(operands(out@) =~= asm_inputs(ops@));
    out
}

/// Copies the output constraints of an inline assembly block.
fn lower_asm_outputs(ops: &Vec<AsmOperand>) -> (r: Vec<String>)
    ensures
        texts(r@) == asm_outputs(ops@),
{
    let mut out: Vec<String> = Vec::new();
    let mut i: usize = 0;
    while i < ops.len()
        invariant
            i <= ops@.len(),
            out@.len() == i,
            forall|j: int| 0 <= j < i ==> (#[trigger] out@[j])@ == ops@[j].constraint@,
        decreases ops@.len() - i,
    {
        out.push(ops[i].constraint.clone());
        i = i + 1;
    }
    assert(texts(out@) =~= asm_outputs(ops@));
    out
}

// ---------------------------------------------------------------------------
// Types and names
// ---------------------------------------------------------------------------

/// The physical type of a type name.
pub open spec fn named_type(n: Seq<char>) -> Result<PirType, Seq<char>> {
    if n == "u8"@ || n == "i8"@ {
        Ok(PirType::I8)
    } else if n == "i32"@ || n == "u32"@ {
        Ok(PirType::I32)
    } else if n == "i64"@ || n == "u64"@ || n == "int"@ {
        Ok(PirType::I64)
    } else if n == "void"@ {
        Ok(PirType::Void)
    } else {
        Err("C* unknown physical type '"@ + n + "'"@)
    }
}

/// The pointer to a physical type.
pub open spec fn pointer_type(r: Result<PirType, Seq<char>>) -> Result<PirType, Seq<char>> {
    match r {
        Ok(t) => Ok(ptr_to(t)),
        Err(m) => Err(m),
    }
}

/// The physical type of a type expression.
pub open spec fn physical_type(t: TypeExpr) -> Result<PirType, Seq<char>>
    decreases t,
{
    match t {
        TypeExpr::Basic(b) => match b {
            BasicType::Bool => Ok(PirType::I1),
            BasicType::Int => Ok(PirType::I64),
            BasicType::Float => Ok(PirType::F64),
            BasicType::Void | BasicType::Null => Ok(PirType::Void),
            BasicType::Any | BasicType::Str => Ok(ptr_to(PirType::I8)),
        },
        TypeExpr::Named(id) => named_type(id.name@),
        TypeExpr::UnsignedInt(bits) => if bits == 8 {
            Ok(PirType::I8)
        } else if bits == 16 || bits == 32 {
            Ok(PirType::I32)
        } else {
            Ok(PirType::I64)
        },
        TypeExpr::Pointer(inner) => pointer_type(physical_type(*inner)),
        TypeExpr::Generic { base, args } => if is_ptr_name(*base) {
            if args@.len() == 0 {
                Err("C* ptr[T] requires one type argument"@)
            } else {
                pointer_type(physical_type(args@[0]))
            }
        } else {
            Err("C* raw backend supports only ptr[T] generic physical type"@)
        },
        TypeExpr::Optional(inner) => pointer_type(physical_type(*inner)),
        TypeExpr::Other => Err("C* raw backend unsupported type expression"@),
    }
}

/// The type is the name `ptr`.
pub open spec fn is_ptr_name(t: TypeExpr) -> bool {
    t matches TypeExpr::Named(id) && id.name@ == "ptr"@
}

/// Whether the type is the name `ptr`.
fn names_ptr(t: &TypeExpr) -> (r: bool)
    ensures
        r == is_ptr_name(*t),
{
    match t {
        TypeExpr::Named(id) => same(id.name.as_str(), "ptr"),
        _ => false,
    }
}

/// The type of a name.
fn pir_type_from_name(n: &str) -> (r: Result<PirType, CompilerError>)
    ensures
        outcome(r) == named_type(n@),
{
    if same(n, "u8") || same(n, "i8") {
        Ok(PirType::I8)
    } else if same(n, "i32") || same(n, "u32") {
        Ok(PirType::I32)
    } else if same(n, "i64") || same(n, "u64") || same(n, "int") {
        Ok(PirType::I64)
    } else if same(n, "void") {
        Ok(PirType::Void)
    } else {
        let mut m = text("C* unknown physical type '");
        m.append(n);
        m.append("'");
        Err(CompilerError::codegen_error(m))
    }
}

/// Lowers a type expression.
pub fn pir_type_from_type_expr(t: &TypeExpr) -> (r: Result<PirType, CompilerError>)
    ensures
        outcome(r) == physical_type(*t),
    decreases t,
{
    match t {
        TypeExpr::Basic(b) => match b {
            BasicType::Bool => Ok(PirType::I1),
            BasicType::Int => Ok(PirType::I64),
            BasicType::Float => Ok(PirType::F64),
            BasicType::Void | BasicType::Null => Ok(PirType::Void),
            BasicType::Any | BasicType::Str => Ok(PirType::ptr_erased()),
        },
        TypeExpr::Named(id) => pir_type_from_name(id.name.as_str()),
        TypeExpr::UnsignedInt(bits) => {
            if *bits == 8 {
                Ok(PirType::I8)
            } else if *bits == 16 || *bits == 32 {
                Ok(PirType::I32)
            } else {
                Ok(PirType::I64)
            }
        },
        TypeExpr::Pointer(inner) => match pir_type_from_type_expr(inner) {
            Ok(x) => Ok(PirType::Ptr(Box::new(x))),
            Err(m) => Err(m),
        },
        TypeExpr::Generic { base, args } => {
            if names_ptr(base) {
                if args.len() == 0 {
                    return fail("C* ptr[T] requires one type argument");
                }
                match pir_type_from_type_expr(&args[0]) {
                    Ok(x) => Ok(PirType::Ptr(Box::new(x))),
                    Err(m) => Err(m),
                }
            } else {
                fail("C* raw backend supports only ptr[T] generic physical type")
            }
        },
        TypeExpr::Optional(inner) => match pir_type_from_type_expr(inner) {
            Ok(x) => Ok(PirType::Ptr(Box::new(x))),
            Err(m) => Err(m),
        },
        TypeExpr::Other => fail("C* raw backend unsupported type expression"),
    }
}

/// The type is a pointer, as written.
pub open spec fn written_as_ptr(t: TypeExpr) -> bool {
    match t {
        TypeExpr::Pointer(_) => true,
        TypeExpr::Generic { base, args } => is_ptr_name(*base),
        _ => false,
    }
}

/// Whether the type is a pointer, as written.
pub fn type_expr_is_ptr(t: &TypeExpr) -> (r: bool)
    ensures
        r == written_as_ptr(*t),
{
    match t {
        TypeExpr::Pointer(_) => true,
        TypeExpr::Generic { base, .. } => names_ptr(base),
        _ => false,
    }
}

/// The name that a call goes to.
pub open spec fn callee_name(e: Expr) -> Result<Seq<char>, Seq<char>> {
    match e {
        Expr::Identifier(id) => Ok(id.name@),
        _ => Err("C* raw calls must use direct identifiers"@),
    }
}

/// The name that a call goes to.
fn call_name(e: &Expr) -> (r: Result<String, CompilerError>)
    ensures
        text_outcome(r) == callee_name(*e),
{
    match e {
        Expr::Identifier(id) => Ok(id.name.clone()),
        _ => fail("C* raw calls must use direct identifiers"),
    }
}

/// The LLVM instruction of an operation; comparisons carry the prefix `icmp_`.
#[verifier::opaque]
pub open spec fn instruction(op: BinaryOp) -> Seq<char> {
    match op {
        BinaryOp::Sub => "sub"@,
        BinaryOp::Mul => "mul"@,
        BinaryOp::Div | BinaryOp::FloorDiv => "sdiv"@,
        BinaryOp::Mod => "srem"@,
        BinaryOp::BitAnd => "and"@,
        BinaryOp::BitOr => "or"@,
        BinaryOp::BitXor => "xor"@,
        BinaryOp::Shl => "shl"@,
        BinaryOp::Shr => "ashr"@,
        BinaryOp::Eq => "icmp_eq"@,
        BinaryOp::Ne => "icmp_ne"@,
        BinaryOp::Lt => "icmp_slt"@,
        BinaryOp::Gt => "icmp_sgt"@,
        BinaryOp::Le => "icmp_sle"@,
        BinaryOp::Ge => "icmp_sge"@,
        _ => "add"@,
    }
}

/// The LLVM instruction of an operation.
fn binop_to_str(op: BinaryOp) -> (r: &'static str)
    ensures
        r@ == instruction(op),
{
    reveal(instruction);
    match op {
        BinaryOp::Sub => "sub",
        BinaryOp::Mul => "mul",
        BinaryOp::Div | BinaryOp::FloorDiv => "sdiv",
        BinaryOp::Mod => "srem",
        BinaryOp::BitAnd => "and",
        BinaryOp::BitOr => "or",
        BinaryOp::BitXor => "xor",
        BinaryOp::Shl => "shl",
        BinaryOp::Shr => "ashr",
        BinaryOp::Eq => "icmp_eq",
        BinaryOp::Ne => "icmp_ne",
        BinaryOp::Lt => "icmp_slt",
        BinaryOp::Gt => "icmp_sgt",
        BinaryOp::Le => "icmp_sle",
        BinaryOp::Ge => "icmp_sge",
        _ => "add",
    }
}

/// The kind of a statement.
pub open spec fn stmt_label(s: Stmt) -> Seq<char> {
    match s {
        Stmt::Assign(_) => "Assign"@,
        Stmt::Expr(_) => "Expr"@,
        Stmt::UnsafeBlock(_) => "UnsafeBlock"@,
        Stmt::Asm(_) => "Asm"@,
        Stmt::If(_) => "If"@,
        Stmt::While(_) => "While"@,
        Stmt::ForIn(_) => "ForIn"@,
        Stmt::ForRange(_) => "ForRange"@,
        Stmt::Loop(_) => "Loop"@,
        Stmt::Return(_) => "Return"@,
        _ => "Other"@,
    }
}

/// The kind of a statement.
pub fn stmt_kind(s: &Stmt) -> (r: &'static str)
    ensures
        r@ == stmt_label(*s),
{
    match s {
        Stmt::Assign(_) => "Assign",
        Stmt::Expr(_) => "Expr",
        Stmt::UnsafeBlock(_) => "UnsafeBlock",
        Stmt::Asm(_) => "Asm",
        Stmt::If(_) => "If",
        Stmt::While(_) => "While",
        Stmt::ForIn(_) => "ForIn",
        Stmt::ForRange(_) => "ForRange",
        Stmt::Loop(_) => "Loop",
        Stmt::Return(_) => "Return",
        _ => "Other",
    }
}

/// The kind of an expression.
pub open spec fn expr_label(e: Expr) -> Seq<char> {
    match e {
        Expr::Integer(_) => "Integer"@,
        Expr::Bool(_) => "Bool"@,
        Expr::Null => "Null"@,
        Expr::Identifier(_) => "Identifier"@,
        Expr::Call(_) => "Call"@,
        Expr::MethodCall(_) => "MethodCall"@,
        Expr::Cast(_) => "Cast"@,
        _ => "Other"@,
    }
}

/// The kind of an expression.
fn expr_kind(e: &Expr) -> (r: &'static str)
    ensures
        r@ == expr_label(*e),
{
    match e {
        Expr::Integer(_) => "Integer",
        Expr::Bool(_) => "Bool",
        Expr::Null => "Null",
        Expr::Identifier(_) => "Identifier",
        Expr::Call(_) => "Call",
        Expr::MethodCall(_) => "MethodCall",
        Expr::Cast(_) => "Cast",
        _ => "Other",
    }
}

/// The LLVM comparison of a condition; whatever is no comparison is compared
/// for inequality.
pub open spec fn comparison(op: BinaryOp) -> Seq<char> {
    match op {
        BinaryOp::Eq => "icmp eq"@,
        BinaryOp::Lt => "icmp slt"@,
        BinaryOp::Le => "icmp sle"@,
        BinaryOp::Gt => "icmp sgt"@,
        BinaryOp::Ge => "icmp sge"@,
        _ => "icmp ne"@,
    }
}

/// A condition as LLVM text.
pub open spec fn cond_text(e: Expr) -> Seq<char>
    decreases e,
{
    match e {
        Expr::Binary(b) => comparison(b.operator) + " i64 "@ + cond_text(*b.left) + ", "@ + cond_text(*b.right),
        Expr::Identifier(id) => "%"@ + id.name@,
        Expr::Integer(i) => int_dec(i.value as int),
        _ => "true"@,
    }
}

/// A condition as LLVM text.
fn expr_to_cond_string(e: &Expr) -> (r: String)
    ensures
        r@ == cond_text(*e),
    decreases e,
{
    match e {
        Expr::Binary(b) => {
            let l = expr_to_cond_string(&b.left);
            let r = expr_to_cond_string(&b.right);
            let mut s = text(
                match b.operator {
                    BinaryOp::Eq => "icmp eq",
                    BinaryOp::Lt => "icmp slt",
                    BinaryOp::Le => "icmp sle",
                    BinaryOp::Gt => "icmp sgt",
                    BinaryOp::Ge => "icmp sge",
                    _ => "icmp ne",
                },
            );
            s.append(" i64 ");
            s.append(l.as_str());
            s.append(", ");
            s.append(r.as_str());
            s
        },
        Expr::Identifier(id) => cat("%", id.name.as_str()),
        Expr::Integer(i) => int_text(i.value),
        _ => text("true"),
    }
}

// ---------------------------------------------------------------------------
// Statements
// ---------------------------------------------------------------------------

/// The nodes behind a statement, and the reason where it has no physical form.
pub struct Lowered {
    pub nodes: Seq<Node>,
    pub error: Option<Seq<char>>,
}

/// Lowering has come to its end.
pub open spec fn done(nodes: Seq<Node>) -> Lowered {
    Lowered { nodes, error: None }
}

/// Lowering has failed.
pub open spec fn failed(nodes: Seq<Node>, m: Seq<char>) -> Lowered {
    Lowered { nodes, error: Some(m) }
}

/// What lowering has come to.
pub open spec fn lowered(r: Result<(), CompilerError>, out: Seq<PirNode>) -> Lowered {
    Lowered {
        nodes: nodes_of(out),
        error: match r {
            Ok(_) => None,
            Err(e) => Some(e.text()),
        },
    }
}

/// The assignment of a cast: an allocation or a move.
pub open spec fn lower_cast(out: Seq<Node>, dst: Seq<char>, ty: PirType, e: Expr) -> Lowered {
    let unsupported = failed(
        out,
        "C* cast assignment currently supports only malloc(n) as ptr[T] or move(p) as ptr[T]"@,
    );
    match e {
        Expr::Call(c) => match callee_name(*c.callee) {
            Err(m) => failed(out, m),
            Ok(n) => if n == "malloc"@ {
                if c.args@.len() == 0 {
                    failed(out, "C* malloc requires byte-size argument"@)
                } else {
                    done(
                        out.push(
                            Node::AllocLinear { dst, bytes: operand_of(c.args@[0]), ty },
                        ),
                    )
                }
            } else if n == "move"@ {
                if c.args@.len() > 0 && c.args@[0] is Identifier {
                    done(
                        out.push(
                            Node::Move { dst, src: c.args@[0]->Identifier_0.name@, ty },
                        ),
                    )
                } else {
                    failed(out, "C* move requires a variable pointer argument"@)
                }
            } else {
                unsupported
            },
        },
        _ => unsupported,
    }
}

/// The assignment of an expression to a variable.
pub open spec fn lower_set(out: Seq<Node>, dst: Seq<char>, e: Expr) -> Lowered {
    let store = done(
        out.push(
            Node::Store {
                ptr: Operand::Var(dst),
                value: operand_of(e),
                ty: PirType::I64,
                volatile: false,
            },
        ),
    );
    match e {
        Expr::Cast(c) => match physical_type(c.type_expr) {
            Err(m) => failed(out, m),
            Ok(ty) => lower_cast(out, dst, ty, *c.expr),
        },
        Expr::MethodCall(mc) => if begins(mc.method.name@, "load"@) {
            done(
                out.push(
                    Node::Load {
                        dst,
                        ptr: operand_of(*mc.receiver),
                        ty: PirType::I64,
                        volatile: occurs(mc.method.name@, "acquire"@),
                    },
                ),
            )
        } else {
            store
        },
        Expr::Call(c) => match callee_name(*c.callee) {
            Err(m) => failed(out, m),
            Ok(n) => done(
                out.push(
                    Node::Call {
                        dst: Some(dst),
                        func: n,
                        args: operands_from(c.args@),
                        ret_ty: if n == "malloc"@ {
                            ptr_to(PirType::I8)
                        } else {
                            PirType::I64
                        },
                    },
                ),
            ),
        },
        Expr::Binary(b) => done(
            out.push(
                Node::BinOp {
                    dst,
                    op: instruction(b.operator),
                    lhs: operand_of(*b.left),
                    rhs: operand_of(*b.right),
                    ty: PirType::I64,
                },
            ),
        ),
        _ => store,
    }
}

/// The assignment statement.
pub open spec fn lower_assignment(out: Seq<Node>, a: AssignStmt) -> Lowered {
    if a.operator != AssignOp::Simple {
        failed(out, "C* raw backend supports only simple assignment in physical code"@)
    } else if a.targets@.len() != 1 {
        failed(out, "C* raw backend supports exactly one assignment target"@)
    } else {
        match a.targets@[0] {
            Assignee::Identifier(id) => lower_set(out, id.name@, a.value),
            Assignee::Index(x) => done(
                out.push(
                    Node::Store {
                        ptr: operand_of(*x.target),
                        value: operand_of(a.value),
                        ty: PirType::I64,
                        volatile: false,
                    },
                ),
            ),
            Assignee::Other => failed(
                out,
                "C* raw assignment target must be an identifier or ptr[index] store"@,
            ),
        }
    }
}

/// The call of a function for its effect.
pub open spec fn lower_call(out: Seq<Node>, c: CallExpr) -> Lowered {
    match callee_name(*c.callee) {
        Err(m) => failed(out, m),
        Ok(n) => if (n == "consume"@ || n == "free"@) && c.args@.len() == 1
            && c.args@[0] is Identifier {
            done(out.push(Node::Consume { var: c.args@[0]->Identifier_0.name@ }))
        } else {
            done(
                out.push(
                    Node::Call {
                        dst: None,
                        func: n,
                        args: operands_from(c.args@),
                        ret_ty: PirType::Void,
                    },
                ),
            )
        },
    }
}

/// The call of a method for its effect.
pub open spec fn lower_method(out: Seq<Node>, mc: MethodCallExpr) -> Lowered {
    let n = mc.method.name@;
    if begins(n, "store"@) {
        if mc.args@.len() == 0 {
            failed(out, "C* ptr.store requires one value argument"@)
        } else {
            done(
                out.push(
                    Node::Store {
                        ptr: operand_of(*mc.receiver),
                        value: operand_of(mc.args@[0]),
                        ty: PirType::I64,
                        volatile: occurs(n, "release"@),
                    },
                ),
            )
        }
    } else {
        failed(out, "C* raw method '"@ + n + "' is not a supported ptr atomic operation"@)
    }
}

/// The evaluation of an expression for its effect.
pub open spec fn lower_effect(out: Seq<Node>, e: Expr) -> Lowered {
    match e {
        Expr::Cast(c) => match *c.expr {
            Expr::Call(call) => lower_call(out, call),
            _ => failed(out, "C* effect cast must wrap a raw call such as free(p) as ptr[u8]"@),
        },
        Expr::Call(c) => lower_call(out, c),
        Expr::MethodCall(mc) => lower_method(out, mc),
        _ => failed(
            out,
            "C* raw effect expression is unsupported in phase 3: "@ + expr_label(e),
        ),
    }
}

/// The kinds of expressions.
pub open spec fn expr_labels(es: Seq<Expr>) -> Seq<Seq<char>> {
    Seq::new(es.len(), |i: int| expr_label(es[i]))
}

/// The comment that stands for a `return`.
pub open spec fn return_comment(values: Seq<Expr>) -> Seq<char> {
    if values.len() == 0 {
        "C* return; (bare return, no value)"@
    } else {
        "C* return <"@ + dec(values.len()) + " value"@ + plural(values.len()) + ">: "@ + joined(expr_labels(values), ", "@) + " (implicit-return ABI; expression not lowered in phase 3)"@
    }
}

/// The ending of the plural.
pub open spec fn plural(n: nat) -> Seq<char> {
    if n == 1 {
        ""@
    } else {
        "s"@
    }
}

/// The label of a while loop.
pub open spec fn while_label(l: Option<Identifier>) -> Seq<char> {
    match l {
        Some(id) => "while."@ + id.name@,
        None => "while"@,
    }
}

/// The loop over the lowered body.
pub open spec fn lower_loop_body(out: Seq<Node>, label: Seq<char>, body: Lowered) -> Lowered {
    match body.error {
        None => done(out.push(Node::Loop { label, body: body.nodes })),
        Some(m) => failed(out, m),
    }
}

/// The nodes behind a statement.
pub open spec fn lower_stmt(out: Seq<Node>, s: Stmt) -> Lowered
    decreases s,
{
    match s {
        Stmt::Assign(a) => lower_assignment(out, a),
        Stmt::Expr(e) => lower_effect(out, e.expr),
        Stmt::Asm(x) => done(
            out.push(
                Node::AsmBlock {
                    template: x.template@,
                    inputs: asm_inputs(x.inputs@),
                    outputs: asm_outputs(x.outputs@),
                },
            ),
        ),
        Stmt::UnsafeBlock(b) => lower_stmts(out, b.body@, 0),
        Stmt::ForRange(fr) => lower_loop_body(
            out,
            "for_range_"@ + fr.var.name@,
            lower_stmts(Seq::empty(), fr.body@, 0),
        ),
        Stmt::ForIn(fi) => lower_loop_body(
            out,
            "for_in_"@ + fi.var.name@,
            lower_stmts(Seq::empty(), fi.body@, 0),
        ),
        Stmt::Loop(l) => lower_loop_body(out, "loop"@, lower_stmts(Seq::empty(), l.body@, 0)),
        Stmt::While(w) => {
            let body = lower_stmts(Seq::empty(), w.body@, 0);
            match body.error {
                None => done(
                    out.push(
                        Node::WhileLoop {
                            label: while_label(w.label),
                            condition: cond_text(w.condition),
                            body: body.nodes,
                        },
                    ),
                ),
                Some(m) => failed(out, m),
            }
        },
        Stmt::Return(r) => done(out.push(Node::Comment(return_comment(r.values@)))),
        _ => failed(
            out,
            "C* raw backend phase 3 does not lower statement "@ + stmt_label(s) + "; use raw calls, assignment, unsafe, asm blocks, for loops in physical functions, or annotated empty functions"@,
        ),
    }
}

/// The nodes behind the statements at and behind `i`, up to the first one that
/// has no physical form.
pub open spec fn lower_stmts(out: Seq<Node>, ss: Seq<Stmt>, i: nat) -> Lowered
    decreases ss, ss.len() - i,
{
    if i >= ss.len() {
        done(out)
    } else {
        let r = lower_stmt(out, ss[i as int]);
        match r.error {
            None => lower_stmts(r.nodes, ss, i + 1),
            Some(_) => r,
        }
    }
}

/// Lowers the assignment of a cast.
fn lower_cast_assign(dst: &str, ty: PirType, e: &Expr, out: &mut Vec<PirNode>) -> (r: Result<
    (),
    CompilerError,
>)
    ensures
        lowered(r, final(out)@) == lower_cast(nodes_of(old(out)@), dst@, ty, *e),
{
    match e {
        Expr::Call(c) => {
            let n = match call_name(&c.callee) {
                Ok(n) => n,
                Err(m) => {
                    return Err(m);
                },
            };
            if same(n.as_str(), "malloc") {
                if c.args.len() == 0 {
                    return fail("C* malloc requires byte-size argument");
                }
                let bytes = lower_operand_expr(&c.args[0]);
                push_node(out, PirNode::AllocLinear { dst: text(dst), bytes, ty });
                return Ok(());
            }
            if same(n.as_str(), "move") {
                if c.args.len() > 0 {
                    match &c.args[0] {
                        Expr::Identifier(id) => {
                            push_node(
                                out,
                                PirNode::Move { dst: text(dst), src: id.name.clone(), ty },
                            );
                            return Ok(());
                        },
                        _ => {},
                    }
                }
                return fail("C* move requires a variable pointer argument");
            }
        },
        _ => {},
    }
    fail("C* cast assignment currently supports only malloc(n) as ptr[T] or move(p) as ptr[T]")
}

/// Lowers the assignment of an expression to a variable.
fn lower_identifier_assign(dst: &str, e: &Expr, out: &mut Vec<PirNode>) -> (r: Result<
    (),
    CompilerError,
>)
    ensures
        lowered(r, final(out)@) == lower_set(nodes_of(old(out)@), dst@, *e),
{
    match e {
        Expr::Cast(c) => {
            return match pir_type_from_type_expr(&c.type_expr) {
                Ok(ty) => lower_cast_assign(dst, ty, &c.expr, out),
                Err(m) => Err(m),
            };
        },
        Expr::MethodCall(mc) => {
            if starts_with(mc.method.name.as_str(), "load") {
                let ptr = lower_operand_expr(&mc.receiver);
                let volatile: bool = contains(mc.method.name.as_str(), "acquire");
                push_node(
                    out,
                    PirNode::Load { dst: text(dst), ptr, ty: PirType::I64, volatile },
                );
                return Ok(());
            }
        },
        Expr::Call(c) => {
            let func = match call_name(&c.callee) {
                Ok(n) => n,
                Err(m) => {
                    return Err(m);
                },
            };
            let ret_ty = if same(func.as_str(), "malloc") {
                PirType::ptr_erased()
            } else {
                PirType::I64
            };
            let args = lower_operands(&c.args);
            push_node(out, PirNode::Call { dst: Some(text(dst)), func, args, ret_ty });
            return Ok(());
        },
        Expr::Binary(b) => {
            let lhs = lower_operand_expr(&b.left);
            let rhs = lower_operand_expr(&b.right);
            let op = text(binop_to_str(b.operator));
            push_node(out, PirNode::BinOp { dst: text(dst), op, lhs, rhs, ty: PirType::I64 });
            return Ok(());
        },
        _ => {},
    }
    let value = lower_operand_expr(e);
    push_node(
        out,
        PirNode::Store {
            ptr: PirOperand::Var(text(dst)),
            value,
            ty: PirType::I64,
            volatile: false,
        },
    );
    Ok(())
}

/// Lowers an assignment.
fn lower_assign(a: &AssignStmt, out: &mut Vec<PirNode>) -> (r: Result<(), CompilerError>)
    ensures
        lowered(r, final(out)@) == lower_assignment(nodes_of(old(out)@), *a),
{
    if a.operator != AssignOp::Simple {
        return fail("C* raw backend supports only simple assignment in physical code");
    }
    if a.targets.len() != 1 {
        return fail("C* raw backend supports exactly one assignment target");
    }
    match &a.targets[0] {
        Assignee::Identifier(id) => lower_identifier_assign(id.name.as_str(), &a.value, out),
        Assignee::Index(x) => {
            let ptr = lower_operand_expr(&x.target);
            let value = lower_operand_expr(&a.value);
            push_node(out, PirNode::Store { ptr, value, ty: PirType::I64, volatile: false });
            Ok(())
        },
        Assignee::Other => fail(
            "C* raw assignment target must be an identifier or ptr[index] store",
        ),
    }
}

/// Lowers a call for its effect.
fn lower_call_effect(c: &CallExpr, out: &mut Vec<PirNode>) -> (r: Result<(), CompilerError>)
    ensures
        lowered(r, final(out)@) == lower_call(nodes_of(old(out)@), *c),
{
    let func = match call_name(&c.callee) {
        Ok(n) => n,
        Err(m) => {
            return Err(m);
        },
    };
    if (same(func.as_str(), "consume") || same(func.as_str(), "free")) && c.args.len() == 1 {
        match &c.args[0] {
            Expr::Identifier(id) => {
                push_node(out, PirNode::Consume { var: id.name.clone() });
                return Ok(());
            },
            _ => {},
        }
    }
    let args = lower_operands(&c.args);
    let none: Option<String> = None;
    push_node(out, PirNode::Call { dst: none, func, args, ret_ty: PirType::Void });
    Ok(())
}

/// Lowers a method call for its effect.
fn lower_method_effect(mc: &MethodCallExpr, out: &mut Vec<PirNode>) -> (r: Result<
    (),
    CompilerError,
>)
    ensures
        lowered(r, final(out)@) == lower_method(nodes_of(old(out)@), *mc),
{
    let n = mc.method.name.as_str();
    if starts_with(n, "store") {
        let ptr = lower_operand_expr(&mc.receiver);
        if mc.args.len() == 0 {
            return fail("C* ptr.store requires one value argument");
        }
        let value = lower_operand_expr(&mc.args[0]);
        let volatile: bool = contains(n, "release");
        push_node(out, PirNode::Store { ptr, value, ty: PirType::I64, volatile });
        Ok(())
    } else {
        let mut m = text("C* raw method '");
        m.append(n);
        m.append("' is not a supported ptr atomic operation");
        Err(CompilerError::codegen_error(m))
    }
}

/// Lowers an expression for its effect.
fn lower_expr_effect(e: &Expr, out: &mut Vec<PirNode>) -> (r: Result<(), CompilerError>)
    ensures
        lowered(r, final(out)@) == lower_effect(nodes_of(old(out)@), *e),
{
    match e {
        Expr::Cast(c) => match &*c.expr {
            Expr::Call(call) => lower_call_effect(call, out),
            _ => fail("C* effect cast must wrap a raw call such as free(p) as ptr[u8]"),
        },
        Expr::Call(c) => lower_call_effect(c, out),
        Expr::MethodCall(mc) => lower_method_effect(mc, out),
        _ => {
            let m = cat("C* raw effect expression is unsupported in phase 3: ", expr_kind(e));
            Err(CompilerError::codegen_error(m))
        },
    }
}

/// The comment that stands for a `return`.
fn return_summary(values: &Vec<Expr>) -> (r: String)
    ensures
        r@ == return_comment(values@),
{
    if values.len() == 0 {
        return text("C* return; (bare return, no value)");
    }
    let mut kinds = TextList::new();
    let mut i: usize = 0;
    while i < values.len()
        invariant
            i <= values@.len(),
            kinds@.len() == i,
            forall|j: int| 0 <= j < i ==> #[trigger] kinds@[j] == expr_label(values@[j]),
        decreases values@.len() - i,
    {
        kinds.push(text(expr_kind(&values[i])));
        i = i + 1;
    }
    assert(kinds@ =~= expr_labels(values@));
    let list = kinds.join(", ");
    let ending = if values.len() == 1 {
        ""
    } else {
        "s"
    };
    let mut s = text("C* return <");
    push_dec(&mut s, values.len() as u64);
    s.append(" value");
    s.append(ending);
    s.append(">: ");
    s.append(list.as_str());
    s.append(" (implicit-return ABI; expression not lowered in phase 3)");
    s
}

/// Lowers a loop over a body.
fn lower_loop(label: String, body_src: &Vec<Stmt>, out: &mut Vec<PirNode>) -> (r: Result<
    (),
    CompilerError,
>)
    ensures
        lowered(r, final(out)@) == lower_loop_body(
            nodes_of(old(out)@),
            label@,
            lower_stmts(Seq::empty(), body_src@, 0),
        ),
    decreases body_src@, 1nat,
{
    let mut body: Vec<PirNode> = Vec::new();
    assert(nodes_of(body@) =~= Seq::<Node>::empty());
    match lower_list(body_src, &mut body) {
        Ok(_) => {
            push_node(out, PirNode::Loop { label, body });
            Ok(())
        },
        Err(m) => Err(m),
    }
}

/// Lowers statements one after the other, up to the first one that has no
/// physical form.
pub fn lower_list(ss: &Vec<Stmt>, out: &mut Vec<PirNode>) -> (r: Result<(), CompilerError>)
    ensures
        lowered(r, final(out)@) == lower_stmts(nodes_of(old(out)@), ss@, 0),
    decreases ss@, 0nat,
{
    let mut i: usize = 0;
    while i < ss.len()
        invariant
            i <= ss@.len(),
            lower_stmts(nodes_of(old(out)@), ss@, 0) == lower_stmts(
                nodes_of(out@),
                ss@,
                i as nat,
            ),
        decreases ss@.len() - i,
    {
        match lower_stmt_into(&ss[i], out) {
            Ok(_) => {},
            Err(m) => {
                return Err(m);
            },
        }
        i = i + 1;
    }
    Ok(())
}

/// Lowers a statement behind the nodes of `out`.
pub fn lower_stmt_into(s: &Stmt, out: &mut Vec<PirNode>) -> (r: Result<(), CompilerError>)
    ensures
        lowered(r, final(out)@) == lower_stmt(nodes_of(old(out)@), *s),
    decreases s, 2nat,
{
    match s {
        Stmt::Assign(a) => lower_assign(a, out),
        Stmt::Expr(e) => lower_expr_effect(&e.expr, out),
        Stmt::Asm(x) => {
            let inputs = lower_asm_inputs(&x.inputs);
            let outputs = lower_asm_outputs(&x.outputs);
            push_node(
                out,
                PirNode::AsmBlock { template: x.template.clone(), inputs, outputs },
            );
            Ok(())
        },
        Stmt::UnsafeBlock(b) => lower_list(&b.body, out),
        Stmt::ForRange(fr) => lower_loop(cat("for_range_", fr.var.name.as_str()), &fr.body, out),
        Stmt::ForIn(fi) => lower_loop(cat("for_in_", fi.var.name.as_str()), &fi.body, out),
        Stmt::Loop(l) => lower_loop(text("loop"), &l.body, out),
        Stmt::While(w) => {
            let mut body: Vec<PirNode> = Vec::new();
            assert(nodes_of(body@) =~= Seq::<Node>::empty());
            match lower_list(&w.body, &mut body) {
                Ok(_) => {},
                Err(m) => {
                    return Err(m);
                },
            }
            let label = match &w.label {
                Some(id) => cat("while.", id.name.as_str()),
                None => text("while"),
            };
            let condition = expr_to_cond_string(&w.condition);
            push_node(out, PirNode::WhileLoop { label, condition, body });
            Ok(())
        },
        Stmt::Return(r) => {
            push_node(out, PirNode::Comment(return_summary(&r.values)));
            Ok(())
        },
        _ => {
            let mut m = text("C* raw backend phase 3 does not lower statement ");
            m.append(stmt_kind(s));
            m.append("; use raw calls, assignment, unsafe, asm blocks, for loops in physical functions, or annotated empty functions");
            Err(CompilerError::codegen_error(m))
        },
    }
}

} // verus!
