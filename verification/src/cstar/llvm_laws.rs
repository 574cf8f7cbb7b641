//! What the LLVM text of physical programs computes.

use vstd::prelude::*;
use crate::ast::{BinaryExpr, BinaryOp, Expr, TypeExpr};
use crate::cstar::llvm::{
    emit_binop, emit_node, emit_nodes, emit_store, Ir, stack_slot, tmp_name, typed_operand,
};
use crate::cstar::lower::{
    cond_text, fold, instruction, lemma_quotient_fits, lemma_remainder_fits, lower_set, named_type,
    operand_of, physical_type, quotient, remainder,
};
use crate::cstar::raw::common::bump;
use crate::cstar::pir::{llvm_name, Node, Operand, PirType, ptr_to};
use crate::llvm_run::{
    after_line, leads, lemma_leads_line, lemma_leads_self, lemma_two, Line, operand_value, Values,
    with_line, with_value,
};
use crate::meaning::{
    compares, left_behind, lemma_names_differ, lemma_ranges, llvm_holds, llvm_value, truncated, truth,
    value, wrapped,
};
use crate::text::{begins, dec, law_numbers_read_back, lemma_dec_differs};

verus! {

/// What an operation computes by the names of LLVM: the name of an instruction,
/// or behind `icmp_` the name of a predicate.
pub open spec fn named_value(m: Seq<char>, l: i64, r: i64) -> Option<i64> {
    if begins(m, "icmp_"@) {
        match llvm_holds(m.skip(5), l as int, r as int) {
            Some(b) => Some(truth(b) as i64),
            None => None,
        }
    } else {
        llvm_value(m, l, r)
    }
}

/// LLVM gives the operation a value on these operands: no division that
/// overflows, and no shift by more than the word has.
pub open spec fn defined(op: BinaryOp, l: i64, r: i64) -> bool {
    match op {
        BinaryOp::Div | BinaryOp::FloorDiv | BinaryOp::Mod => !(l == i64::MIN && r == -1),
        BinaryOp::Shl | BinaryOp::Shr => 0 <= r < 64,
        _ => true,
    }
}

/// A product in two's complement.
proof fn lemma_crop(x: int)
    ensures
        vstd::wrapping::i64_specs::signed_crop(x) as int == wrapped(x, 64),
{
    lemma_ranges();
    let r = 0x1_0000_0000_0000_0000int;
    let h = 0x8000_0000_0000_0000int;
    vstd::arithmetic::div_mod::lemma_add_mod_noop(x, h, r);
    let m = x % r;
    assert(h % r == h);
    assert((m + h) % r == wrapped(x, 64) + h);
}

/// A sum or difference in two's complement.
proof fn lemma_sum(x: int)
    requires
        -0x1_0000_0000_0000_0000 <= x < 0x1_0000_0000_0000_0000,
    ensures
        wrapped(x, 64) == (if x > i64::MAX {
            x - 0x1_0000_0000_0000_0000
        } else if x < i64::MIN {
            x + 0x1_0000_0000_0000_0000
        } else {
            x
        }),
{
    lemma_ranges();
    let r = 0x1_0000_0000_0000_0000int;
    let h = 0x8000_0000_0000_0000int;
    assert((x + h) % r == wrapped(x, 64) + h);
}

/// The names of comparisons.
proof fn lemma_compare_names()
    ensures
        begins("icmp_eq"@, "icmp_"@) && "icmp_eq"@.skip(5) == "eq"@,
        begins("icmp_ne"@, "icmp_"@) && "icmp_ne"@.skip(5) == "ne"@,
        begins("icmp_slt"@, "icmp_"@) && "icmp_slt"@.skip(5) == "slt"@,
        begins("icmp_sgt"@, "icmp_"@) && "icmp_sgt"@.skip(5) == "sgt"@,
        begins("icmp_sle"@, "icmp_"@) && "icmp_sle"@.skip(5) == "sle"@,
        begins("icmp_sge"@, "icmp_"@) && "icmp_sge"@.skip(5) == "sge"@,
        !begins("add"@, "icmp_"@),
        !begins("sub"@, "icmp_"@),
        !begins("mul"@, "icmp_"@),
        !begins("sdiv"@, "icmp_"@),
        !begins("srem"@, "icmp_"@),
        !begins("and"@, "icmp_"@),
        !begins("or"@, "icmp_"@),
        !begins("xor"@, "icmp_"@),
        !begins("shl"@, "icmp_"@),
        !begins("ashr"@, "icmp_"@),
{
    reveal_strlit("icmp_");
    reveal_strlit("icmp_eq");
    reveal_strlit("icmp_ne");
    reveal_strlit("icmp_slt");
    reveal_strlit("icmp_sgt");
    reveal_strlit("icmp_sle");
    reveal_strlit("icmp_sge");
    reveal_strlit("eq");
    reveal_strlit("ne");
    reveal_strlit("slt");
    reveal_strlit("sgt");
    reveal_strlit("sle");
    reveal_strlit("sge");
    reveal_strlit("add");
    reveal_strlit("sub");
    reveal_strlit("mul");
    reveal_strlit("sdiv");
    reveal_strlit("srem");
    reveal_strlit("and");
    reveal_strlit("or");
    reveal_strlit("xor");
    reveal_strlit("shl");
    reveal_strlit("ashr");
    assert("icmp_eq"@.skip(5) =~= "eq"@ && "icmp_eq"@.take(5) =~= "icmp_"@);
    assert("icmp_ne"@.skip(5) =~= "ne"@ && "icmp_ne"@.take(5) =~= "icmp_"@);
    assert("icmp_slt"@.skip(5) =~= "slt"@ && "icmp_slt"@.take(5) =~= "icmp_"@);
    assert("icmp_sgt"@.skip(5) =~= "sgt"@ && "icmp_sgt"@.take(5) =~= "icmp_"@);
    assert("icmp_sle"@.skip(5) =~= "sle"@ && "icmp_sle"@.take(5) =~= "icmp_"@);
    assert("icmp_sge"@.skip(5) =~= "sge"@ && "icmp_sge"@.take(5) =~= "icmp_"@);
}

/// The instruction that an operation is lowered to computes what the operation
/// folds to on constants.
pub proof fn law_instructions_compute_what_constants_fold_to(op: BinaryOp, l: i64, r: i64)
    requires
        fold(op, l, r) is Some,
        defined(op, l, r),
    ensures
        named_value(instruction(op), l, r) == fold(op, l, r),
{
    reveal(instruction);
    lemma_names_differ();
    lemma_compare_names();
    lemma_ranges();
    match op {
        BinaryOp::Add => {
            lemma_sum(l + r);
        },
        BinaryOp::Sub => {
            lemma_sum(l - r);
        },
        BinaryOp::Mul => {
            lemma_crop(l * r);
        },
        BinaryOp::Div | BinaryOp::FloorDiv | BinaryOp::Mod => {
            assert(quotient(l as int, r as int) == truncated(l as int, r as int));
            assert(remainder(l as int, r as int) == left_behind(l as int, r as int));
        },
        BinaryOp::Shl | BinaryOp::Shr => {
            assert(r & 63 == r) by (bit_vector)
                requires
                    0 <= r < 64,
            ;
        },
        _ => {},
    }
}

/// Constants fold to the value of the operation: sums, differences and products
/// in two's complement, quotients towards zero, and one or zero for comparisons.
pub proof fn law_constants_fold_to_their_value(op: BinaryOp, l: i64, r: i64)
    requires
        fold(op, l, r) is Some,
        op != BinaryOp::FloorDiv && op != BinaryOp::Shl && op != BinaryOp::Shr,
        !(l == i64::MIN && r == -1),
    ensures
        value(op, l as int, r as int, 64) == Some(fold(op, l, r)->Some_0 as int),
{
    lemma_ranges();
    match op {
        BinaryOp::Add => {
            lemma_sum(l + r);
        },
        BinaryOp::Sub => {
            lemma_sum(l - r);
        },
        BinaryOp::Mul => {
            lemma_crop(l * r);
        },
        BinaryOp::Div | BinaryOp::Mod => {
            assert(quotient(l as int, r as int) == truncated(l as int, r as int));
            lemma_quotient_fits(l, r);
            if r != -1 {
                lemma_remainder_fits(l, r);
            } else {
                assert((-(l as int)) / 1 == -(l as int)) by (nonlinear_arith);
                assert((l as int) / 1 == l as int) by (nonlinear_arith);
            }
        },
        _ => {},
    }
}

/// The integer that an operand is: a constant, or what the stack slot of a
/// variable holds.
pub open spec fn integer(ir: Ir, s: Values, o: Operand) -> Option<i64> {
    match o {
        Operand::Int(i) => Some(i),
        Operand::Var(v) => if ir.slots.contains_key(v) && s.mem.contains_key(ir.slots[v]) {
            Some(s.mem[ir.slots[v]])
        } else {
            None
        },
        _ => None,
    }
}

/// Different temporaries have different names, which begin with a percent sign.
proof fn lemma_tmp_names(a: usize, b: usize)
    ensures
        tmp_name(a).len() > 0,
        tmp_name(a)[0] == '%',
        a != b ==> tmp_name(a) != tmp_name(b),
{
    reveal(tmp_name);
    reveal_strlit("%cstar");
    if a != b {
        lemma_dec_differs(a as nat, b as nat);
        assert(tmp_name(a).skip(6) =~= dec(a as nat));
        assert(tmp_name(b).skip(6) =~= dec(b as nat));
    }
}

/// The pointer type of 64-bit integers.
proof fn lemma_types()
    ensures
        llvm_name(PirType::I64) == "i64"@,
        llvm_name(ptr_to(PirType::I64)) == "i64"@ + "*"@,
{
    reveal_with_fuel(llvm_name, 3);
}

/// A pointer type in a line.
proof fn lemma_pointer(o: Seq<char>)
    ensures
        o + ("i64"@ + "*"@) + " "@ == o + "i64"@ + "* "@,
{
    reveal_strlit("* ");
    reveal_strlit("*");
    reveal_strlit(" ");
    assert("* "@ =~= "*"@ + " "@);
    lemma_two(o, "i64"@ + "*"@, "i64"@, "*"@);
    lemma_two(o + "i64"@, "* "@, "*"@, " "@);
}

/// An operand is loaded.
proof fn lemma_operand(ir: Ir, o: Operand, from: Seq<char>, s0: Values, s: Values) -> (t: Values)
    requires
        leads(from, ir.out, s0, s),
        integer(ir, s, o) is Some,
        s.at is None,
        ir.tmp < usize::MAX - 8,
    ensures
        typed_operand(ir, o, PirType::I64) matches Ok((i1, x)) && {
            &&& leads(from, i1.out, s0, t)
            &&& operand_value(t, x) == integer(ir, s, o)
            &&& t.mem == s.mem
            &&& t.at is None
            &&& i1.slots == ir.slots
            &&& i1.names == ir.names
            &&& ir.tmp <= i1.tmp <= ir.tmp + 1
            &&& x != tmp_name((ir.tmp + 1) as usize) ==> forall|u: Values| #[trigger]
                operand_value(u, x) == integer(ir, s, o)
            &&& x == tmp_name((ir.tmp + 1) as usize) ==> i1.tmp == ir.tmp + 1
            &&& forall|y: Seq<char>|
                y != tmp_name((ir.tmp + 1) as usize) ==> operand_value(t, y)
                    == #[trigger] operand_value(s, y)
        },
{
    reveal(typed_operand);
    lemma_types();
    lemma_tmp_names((ir.tmp + 1) as usize, ir.tmp);
    match o {
        Operand::Int(i) => {
            law_numbers_read_back(i);
            s
        },
        Operand::Var(v) => {
            let name = tmp_name((ir.tmp + 1) as usize);
            let l = Line::Load { res: name, ty: "i64"@, slot: ir.slots[v], tail: ", align 8"@ };
            let t = with_value(s, name, s.mem[ir.slots[v]]);
            lemma_leads_line(from, ir.out, s0, s, l, t);
            reveal_strlit(", align 8\n");
            reveal_strlit(", align 8");
            reveal_strlit("\n");
            reveal_strlit("* ");
            reveal_strlit("*");
            reveal_strlit(" ");
            assert(", align 8\n"@ =~= ", align 8"@ + "\n"@);
            assert("* "@ =~= "*"@ + " "@);
            let head = ir.out + "  "@ + name + " = load "@ + "i64"@ + ", "@;
            lemma_pointer(head);
            lemma_two(head + "i64"@ + "* "@ + ir.slots[v], ", align 8\n"@, ", align 8"@, "\n"@);
            assert(typed_operand(ir, o, PirType::I64)->Ok_0.0.out == with_line(ir.out, l));
            t
        },
        _ => s,
    }
}

/// A variable has a stack slot, and a value is stored to it.
proof fn lemma_stored(ir: Ir, name: Seq<char>, v: Seq<char>, end: Seq<char>, from: Seq<char>, s0: Values, s: Values, x: i64) -> (t: Values)
    requires
        leads(from, ir.out, s0, s),
        operand_value(s, v) == Some(x),
        s.at is None,
        end == ", align 8"@ || end == ", align 1"@,
    ensures
        ({
            let (i5, slot) = stack_slot(ir, name, PirType::I64);
            &&& leads(
                from,
                i5.out + "  store "@ + "i64"@ + " "@ + v + ", "@ + "i64"@ + "* "@ + slot + end + "\n"@,
                s0,
                t,
            )
            &&& t.mem == s.mem.insert(slot, x)
            &&& t.at is None
            &&& i5.slots.contains_key(name)
            &&& i5.slots[name] == slot
        }),
{
    reveal(stack_slot);
    lemma_types();
    let (i5, slot) = stack_slot(ir, name, PirType::I64);
    let u = if ir.slots.contains_key(name) {
        s
    } else {
        Values { mem: s.mem.insert(slot, 0), ..s }
    };
    if !ir.slots.contains_key(name) {
        let a = Line::Slot { res: slot, ty: "i64"@, tail: ", align 8"@ };
        lemma_leads_line(from, ir.out, s0, s, a, u);
        reveal_strlit(", align 8\n");
        reveal_strlit(", align 8");
        reveal_strlit("\n");
        assert(", align 8\n"@ =~= ", align 8"@ + "\n"@);
        lemma_two(ir.out + "  "@ + slot + " = alloca "@ + "i64"@, ", align 8\n"@, ", align 8"@, "\n"@);
        assert(i5.out == with_line(ir.out, a));
    }
    let l = Line::Store { ty: "i64"@, v, slot, tail: end };
    let t = Values { mem: u.mem.insert(slot, x), ..u };
    assert(operand_value(u, v) == Some(x));
    lemma_leads_line(from, i5.out, s0, u, l, t);
    assert(t.mem =~= s.mem.insert(slot, x));
    t
}

/// Two operands are loaded, one behind the other.
proof fn lemma_operands(ir: Ir, lhs: Operand, rhs: Operand, s: Values) -> (t: Values)
    requires
        ir.tmp < usize::MAX - 16,
        s.at is None,
        integer(ir, s, lhs) is Some,
        integer(ir, s, rhs) is Some,
    ensures
        typed_operand(ir, lhs, PirType::I64) matches Ok((i1, x)) && typed_operand(
            i1,
            rhs,
            PirType::I64,
        ) matches Ok((i2, y)) && {
            &&& leads(ir.out, i2.out, s, t)
            &&& operand_value(t, x) == integer(ir, s, lhs)
            &&& operand_value(t, y) == integer(ir, s, rhs)
            &&& t.mem == s.mem
            &&& t.at is None
            &&& i2.tmp < usize::MAX - 8
        },
{
    lemma_leads_self(ir.out, s);
    let t1 = lemma_operand(ir, lhs, ir.out, s, s);
    let (i1, x) = typed_operand(ir, lhs, PirType::I64)->Ok_0;
    let t2 = lemma_operand(i1, rhs, ir.out, s, t1);
    lemma_tmp_names((ir.tmp + 1) as usize, (i1.tmp + 1) as usize);
    t2
}

/// An instruction, and the store of its value.
proof fn lemma_arith(ir: Ir, i2: Ir, dst: Seq<char>, m: Seq<char>, x: Seq<char>, y: Seq<char>, s: Values, t2: Values, v: i64) -> (t: Values)
    requires
        leads(ir.out, i2.out, s, t2),
        i2.tmp < usize::MAX - 8,
        t2.at is None,
        operand_value(t2, x) is Some,
        operand_value(t2, y) is Some,
        llvm_value(m, operand_value(t2, x)->Some_0, operand_value(t2, y)->Some_0) == Some(v),
    ensures
        ({
            let res = tmp_name(bump(i2.tmp));
            let i3 = i2.fresh();
            let i4 = i3.with(i3.out + "  "@ + res + " = "@ + m + " "@ + "i64"@ + " "@ + x + ", "@ + y + "\n"@);
            let (i5, slot) = stack_slot(i4, dst, PirType::I64);
            &&& leads(
                ir.out,
                i5.out + "  store "@ + "i64"@ + " "@ + res + ", "@ + ("i64"@ + "*"@) + " "@ + slot + ", align 8\n"@,
                s,
                t,
            )
            &&& i5.slots.contains_key(dst)
            &&& i5.slots[dst] == slot
            &&& t.mem == t2.mem.insert(slot, v)
            &&& t.at is None
        }),
{
    let res = tmp_name((i2.tmp + 1) as usize);
    let i3 = i2.fresh();
    lemma_tmp_names((i2.tmp + 1) as usize, i2.tmp);
    let c = Line::Arith { res, m, ty: "i64"@, l: x, r: y };
    let t3 = with_value(t2, res, v);
    assert(after_line(t2, c) == Some(t3));
    lemma_leads_line(ir.out, i2.out, s, t2, c, t3);
    let i4 = i3.with(i3.out + "  "@ + res + " = "@ + m + " "@ + "i64"@ + " "@ + x + ", "@ + y + "\n"@);
    assert(i4.out == with_line(i2.out, c));
    let t5 = lemma_stored(i4, dst, res, ", align 8"@, ir.out, s, t3, v);
    let (i5, slot) = stack_slot(i4, dst, PirType::I64);
    lemma_store_text(i5.out, res, slot);
    t5
}

/// A comparison, its widening, and the store of its value.
proof fn lemma_comparison(ir: Ir, i2: Ir, dst: Seq<char>, p: Seq<char>, x: Seq<char>, y: Seq<char>, s: Values, t2: Values, b: bool) -> (t: Values)
    requires
        leads(ir.out, i2.out, s, t2),
        i2.tmp < usize::MAX - 8,
        t2.at is None,
        operand_value(t2, x) is Some,
        operand_value(t2, y) is Some,
        llvm_holds(
            p,
            operand_value(t2, x)->Some_0 as int,
            operand_value(t2, y)->Some_0 as int,
        ) == Some(b),
    ensures
        ({
            let res = tmp_name(bump(i2.tmp));
            let i3 = i2.fresh();
            let z = tmp_name(bump(i3.tmp));
            let i4 = i3.fresh().with(
                i3.out + "  "@ + res + " = icmp "@ + p + " "@ + "i64"@ + " "@ + x + ", "@ + y + "\n"@ + "  "@ + z + " = zext i1 "@ + res + " to "@ + "i64"@ + "\n"@,
            );
            let (i5, slot) = stack_slot(i4, dst, PirType::I64);
            &&& leads(
                ir.out,
                i5.out + "  store "@ + "i64"@ + " "@ + z + ", "@ + ("i64"@ + "*"@) + " "@ + slot + ", align 8\n"@,
                s,
                t,
            )
            &&& i5.slots.contains_key(dst)
            &&& i5.slots[dst] == slot
            &&& t.mem == t2.mem.insert(slot, truth(b) as i64)
            &&& t.at is None
        }),
{
    let v = truth(b) as i64;
    let res = tmp_name((i2.tmp + 1) as usize);
    let i3 = i2.fresh();
    lemma_tmp_names((i2.tmp + 1) as usize, (i2.tmp + 2) as usize);
    lemma_tmp_names((i2.tmp + 2) as usize, (i2.tmp + 1) as usize);
    let c = Line::Compare { res, p, ty: "i64"@, l: x, r: y };
    let t3 = with_value(t2, res, v);
    assert(after_line(t2, c) == Some(t3));
    lemma_leads_line(ir.out, i2.out, s, t2, c, t3);
    let z = tmp_name((i2.tmp + 2) as usize);
    let w = Line::Widen { res: z, v: res, ty: "i64"@ };
    let t4 = with_value(t3, z, v);
    assert(after_line(t3, w) == Some(t4));
    lemma_leads_line(ir.out, with_line(i2.out, c), s, t3, w, t4);
    let i4 = i3.fresh().with(
        i3.out + "  "@ + res + " = icmp "@ + p + " "@ + "i64"@ + " "@ + x + ", "@ + y + "\n"@ + "  "@ + z + " = zext i1 "@ + res + " to "@ + "i64"@ + "\n"@,
    );
    assert(i4.out == with_line(with_line(i2.out, c), w));
    let t5 = lemma_stored(i4, dst, z, ", align 8"@, ir.out, s, t4, v);
    let (i5, slot) = stack_slot(i4, dst, PirType::I64);
    lemma_store_text(i5.out, z, slot);
    t5
}

/// The text of a store.
proof fn lemma_store_text(o: Seq<char>, v: Seq<char>, slot: Seq<char>)
    ensures
        o + "  store "@ + "i64"@ + " "@ + v + ", "@ + "i64"@ + "* "@ + slot + ", align 8"@ + "\n"@ == o
            + "  store "@ + "i64"@ + " "@ + v + ", "@ + ("i64"@ + "*"@) + " "@ + slot
            + ", align 8\n"@,
{
    reveal_strlit(", align 8\n");
    reveal_strlit(", align 8");
    reveal_strlit("\n");
    assert(", align 8\n"@ =~= ", align 8"@ + "\n"@);
    let head = o + "  store "@ + "i64"@ + " "@ + v + ", "@;
    lemma_pointer(head);
    lemma_two(head + "i64"@ + "* "@ + slot, ", align 8\n"@, ", align 8"@, "\n"@);
}

/// An operation leaves its value on the left and the right operand, in this
/// order, in the stack slot of its destination. Nothing else is stored.
proof fn lemma_binop(ir: Ir, dst: Seq<char>, op: BinaryOp, lhs: Operand, rhs: Operand, s: Values) -> (t: Values)
    requires
        ir.tmp < usize::MAX - 16,
        s.at is None,
        integer(ir, s, lhs) is Some,
        integer(ir, s, rhs) is Some,
        fold(op, integer(ir, s, lhs)->Some_0, integer(ir, s, rhs)->Some_0) is Some,
        defined(op, integer(ir, s, lhs)->Some_0, integer(ir, s, rhs)->Some_0),
    ensures
        emit_binop(ir, dst, instruction(op), lhs, rhs, PirType::I64) matches Ok(i) && {
            &&& leads(ir.out, i.out, s, t)
            &&& i.slots.contains_key(dst)
            &&& t.mem == s.mem.insert(
                i.slots[dst],
                fold(op, integer(ir, s, lhs)->Some_0, integer(ir, s, rhs)->Some_0)->Some_0,
            )
            &&& t.at is None
        },
{
    lemma_types();
    let (a, b) = (integer(ir, s, lhs)->Some_0, integer(ir, s, rhs)->Some_0);
    law_instructions_compute_what_constants_fold_to(op, a, b);
    let m = instruction(op);
    let t2 = lemma_operands(ir, lhs, rhs, s);
    let (i1, x) = typed_operand(ir, lhs, PirType::I64)->Ok_0;
    let (i2, y) = typed_operand(i1, rhs, PirType::I64)->Ok_0;
    reveal(emit_binop);
    if begins(m, "icmp_"@) {
        lemma_comparison(
            ir,
            i2,
            dst,
            m.skip(5),
            x,
            y,
            s,
            t2,
            llvm_holds(m.skip(5), a as int, b as int)->Some_0,
        )
    } else {
        lemma_arith(ir, i2, dst, m, x, y, s, t2, fold(op, a, b)->Some_0)
    }
}

/// The assignment `x = a op b` leaves the value of the operation on `a` and `b`,
/// in this order, in the stack slot of `x`, and stores nothing else.
pub proof fn law_assignments_compute_their_value(ir: Ir, x: Seq<char>, b: BinaryExpr, s: Values)
    requires
        ir.tmp < usize::MAX - 16,
        s.at is None,
        integer(ir, s, operand_of(*b.left)) is Some,
        integer(ir, s, operand_of(*b.right)) is Some,
        ({
            let l = integer(ir, s, operand_of(*b.left))->Some_0;
            let r = integer(ir, s, operand_of(*b.right))->Some_0;
            fold(b.operator, l, r) is Some && defined(b.operator, l, r)
        }),
    ensures
        ({
            let l = integer(ir, s, operand_of(*b.left))->Some_0;
            let r = integer(ir, s, operand_of(*b.right))->Some_0;
            let ns = lower_set(Seq::empty(), x, Expr::Binary(b)).nodes;
            emit_nodes(ir, ns, 0) matches Ok(i) && i.slots.contains_key(x) && exists|t: Values|
                #[trigger]
                leads(ir.out, i.out, s, t) && t.at is None && t.mem == s.mem.insert(
                    i.slots[x],
                    fold(b.operator, l, r)->Some_0,
                )
        }),
{
    let (lhs, rhs) = (operand_of(*b.left), operand_of(*b.right));
    let t = lemma_binop(ir, x, b.operator, lhs, rhs, s);
    let ns = lower_set(Seq::empty(), x, Expr::Binary(b)).nodes;
    let n = Node::BinOp { dst: x, op: instruction(b.operator), lhs, rhs, ty: PirType::I64 };
    assert(ns =~= seq![n]);
    let i = emit_binop(ir, x, instruction(b.operator), lhs, rhs, PirType::I64)->Ok_0;
    assert(emit_node(ir, n) == Ok::<Ir, Seq<char>>(i));
    reveal_with_fuel(emit_nodes, 3);
    assert(leads(ir.out, i.out, s, t));
}

/// The assignment of a constant or a variable to `x` leaves its value in the
/// stack slot of `x`, and stores nothing else.
pub proof fn law_plain_assignments_keep_their_value(ir: Ir, x: Seq<char>, e: Expr, s: Values)
    requires
        ir.tmp < usize::MAX - 16,
        s.at is None,
        e is Integer || e is Identifier,
        !ir.names.contains_key(x),
        ir.slots.contains_key(x),
        integer(ir, s, operand_of(e)) is Some,
    ensures
        ({
            let v = integer(ir, s, operand_of(e))->Some_0;
            let ns = lower_set(Seq::empty(), x, e).nodes;
            emit_nodes(ir, ns, 0) matches Ok(i) && exists|t: Values| #[trigger]
                leads(ir.out, i.out, s, t) && t.at is None && t.mem == s.mem.insert(ir.slots[x], v)
        }),
{
    reveal(emit_store);
    reveal(stack_slot);
    lemma_types();
    lemma_leads_self(ir.out, s);
    let o = operand_of(e);
    let v = integer(ir, s, o)->Some_0;
    let t1 = lemma_operand(ir, o, ir.out, s, s);
    let (i1, y) = typed_operand(ir, o, PirType::I64)->Ok_0;
    let t2 = lemma_stored(i1, x, y, ", align 1"@, ir.out, s, t1, v);
    let ns = lower_set(Seq::empty(), x, e).nodes;
    let n = Node::Store { ptr: Operand::Var(x), value: o, ty: PirType::I64, volatile: false };
    assert(ns =~= seq![n]);
    reveal_strlit(", align 1\n");
    reveal_strlit(", align 1");
    reveal_strlit("\n");
    reveal_strlit("  store");
    reveal_strlit("  store ");
    reveal_strlit("");
    reveal_strlit("* ");
    reveal_strlit("*");
    reveal_strlit(" ");
    assert(", align 1\n"@ =~= ", align 1"@ + "\n"@);
    assert("* "@ =~= "*"@ + " "@);
    assert("  store"@ + ""@ + " "@ =~= "  store "@);
    let i = emit_store(ir, Operand::Var(x), o, PirType::I64, false)->Ok_0;
    let slot = ir.slots[x];
    let head = i1.out + "  store "@ + "i64"@ + " "@ + y + ", "@;
    assert(i1.out + "  store"@ + ""@ + " "@ =~= i1.out + "  store "@);
    lemma_pointer(head);
    lemma_two(head + "i64"@ + "* "@ + slot, ", align 1\n"@, ", align 1"@, "\n"@);
    assert(i.out == head + "i64"@ + "* "@ + slot + ", align 1"@ + "\n"@);
    assert(emit_node(ir, n) == Ok::<Ir, Seq<char>>(i));
    reveal_with_fuel(emit_nodes, 3);
    assert(leads(ir.out, i.out, s, t2));
}

/// The condition of a loop compares its two sides, in this order, by the
/// predicate that holds of two integers just where the comparison does.
pub proof fn law_conditions_name_their_comparison(b: BinaryExpr)
    requires
        compares(b.operator, 0, 0) is Some,
    ensures
        exists|p: Seq<char>|
            cond_text(Expr::Binary(b)) == #[trigger] ("icmp "@ + p) + " i64 "@ + cond_text(*b.left)
                + ", "@ + cond_text(*b.right) && forall|l: int, r: int| #[trigger]
                llvm_holds(p, l, r) == compares(b.operator, l, r),
{
    lemma_names_differ();
    reveal_strlit("icmp ");
    reveal_strlit("icmp eq");
    reveal_strlit("icmp ne");
    reveal_strlit("icmp slt");
    reveal_strlit("icmp sle");
    reveal_strlit("icmp sgt");
    reveal_strlit("icmp sge");
    reveal_strlit("eq");
    reveal_strlit("ne");
    reveal_strlit("slt");
    reveal_strlit("sle");
    reveal_strlit("sgt");
    reveal_strlit("sge");
    assert("icmp eq"@ =~= "icmp "@ + "eq"@);
    assert("icmp ne"@ =~= "icmp "@ + "ne"@);
    assert("icmp slt"@ =~= "icmp "@ + "slt"@);
    assert("icmp sle"@ =~= "icmp "@ + "sle"@);
    assert("icmp sgt"@ =~= "icmp "@ + "sgt"@);
    assert("icmp sge"@ =~= "icmp "@ + "sge"@);
    let p = match b.operator {
        BinaryOp::Eq => "eq"@,
        BinaryOp::Lt => "slt"@,
        BinaryOp::Le => "sle"@,
        BinaryOp::Gt => "sgt"@,
        BinaryOp::Ge => "sge"@,
        _ => "ne"@,
    };
    assert forall|l: int, r: int| #[trigger] llvm_holds(p, l, r) == compares(b.operator, l, r) by {}
    assert(cond_text(Expr::Binary(b)) == ("icmp "@ + p) + " i64 "@ + cond_text(*b.left) + ", "@
        + cond_text(*b.right));
}

/// An integer type has the width that its name says, and an unsigned type of a
/// number of bits has room for them.
pub proof fn law_integer_types_have_their_width(n: u32)
    requires
        n == 8 || n == 16 || n == 32 || n == 64,
    ensures
        n != 16 ==> (named_type("i"@ + dec(n as nat)) matches Ok(t) && llvm_name(t) == "i"@ + dec(
            n as nat,
        )),
        n != 16 ==> (named_type("u"@ + dec(n as nat)) matches Ok(t) && llvm_name(t) == "i"@ + dec(
            n as nat,
        )),
        physical_type(TypeExpr::UnsignedInt(n)) matches Ok(t) && exists|m: nat|
            m >= n && llvm_name(t) == #[trigger] ("i"@ + dec(m)),
{
    reveal_with_fuel(dec, 3);
    reveal_with_fuel(llvm_name, 2);
    reveal_strlit("i");
    reveal_strlit("u");
    reveal_strlit("i8");
    reveal_strlit("i32");
    reveal_strlit("i64");
    reveal_strlit("u8");
    reveal_strlit("u32");
    reveal_strlit("u64");
    reveal_strlit("int");
    reveal_strlit("void");
    assert("i8"@ =~= "i"@ + dec(8));
    assert("i32"@ =~= "i"@ + dec(32));
    assert("i64"@ =~= "i"@ + dec(64));
    assert("u8"@ =~= "u"@ + dec(8));
    assert("u32"@ =~= "u"@ + dec(32));
    assert("u64"@ =~= "u"@ + dec(64));
    assert("i8"@[0] == 'i' && "i32"@[1] == '3' && "i64"@[1] == '6' && "i8"@.len() == 2);
    assert("u8"@[0] == 'u' && "u32"@[1] == '3' && "u64"@[1] == '6' && "u8"@.len() == 2);
}

} // verus!
