//! What emitted LLVM text computes.

use vstd::prelude::*;
use crate::emit_llvm::{
    branched, clean_name, compared, emit_binary, emit_branch, emit_branch_true, emit_compare,
    emit_neg, emit_not, int_insn, Ll, load, next_label, predicate, store, value_name,
};
use crate::ir::{BinOp, Cond, Opnd, TypeHint};
use crate::llvm_run::{
    after_line, leads, lemma_leads_line, lemma_leads_self, lemma_none, lemma_three, Line,
    operand_value, Values, with_line, with_value,
};
use crate::meaning::{left_behind, lemma_names_differ, truncated, truth, wrapped};
use crate::text::{dec, int_dec, law_numbers_read_back, lemma_dec_differs};

verus! {

/// The value of a static operation on 64-bit integers; none where it has none.
pub open spec fn static_value(op: BinOp, l: i64, r: i64) -> Option<i64> {
    match op {
        BinOp::Add => Some(wrapped(l + r, 64) as i64),
        BinOp::Sub => Some(wrapped(l - r, 64) as i64),
        BinOp::Mul => Some(wrapped(l * r, 64) as i64),
        BinOp::Div => if r == 0 || (l == i64::MIN && r == -1) {
            None
        } else {
            Some(truncated(l as int, r as int) as i64)
        },
        BinOp::Mod => if r == 0 || (l == i64::MIN && r == -1) {
            None
        } else {
            Some(left_behind(l as int, r as int) as i64)
        },
        BinOp::And => Some(l & r),
        BinOp::Or => Some(l | r),
        BinOp::Xor => Some(l ^ r),
        BinOp::Shl => if 0 <= r < 64 {
            Some(l << r)
        } else {
            None
        },
        BinOp::Shr => if 0 <= r < 64 {
            Some(l >> r)
        } else {
            None
        },
        _ => None,
    }
}

/// The condition holds of two integers.
pub open spec fn cond_holds(c: Cond, l: i64, r: i64) -> bool {
    match c {
        Cond::Eq => l == r,
        Cond::Ne => l != r,
        Cond::Lt => l < r,
        Cond::Le => l <= r,
        Cond::Gt => l > r,
        Cond::Ge => l >= r,
    }
}

/// The integer that an operand is: a constant, or what the stack slot of a
/// register holds.
pub open spec fn integer(st: Ll, s: Values, o: Opnd) -> Option<i64> {
    match o {
        Opnd::ImmI64(v) => Some(v),
        Opnd::ImmBool(b) => Some(truth(b) as i64),
        Opnd::Reg(n, t) => if st.slots.contains_key(n) && s.mem.contains_key(st.slots[n]) && (t
            == TypeHint::I64 || t == TypeHint::Bool) {
            Some(s.mem[st.slots[n]])
        } else {
            None
        },
        _ => None,
    }
}

/// The register has a stack slot.
pub open spec fn has_slot(st: Ll, o: Opnd) -> bool {
    o matches Opnd::Reg(n, _) && st.slots.contains_key(n)
}

/// The stack slot of a register.
pub open spec fn slot_of(st: Ll, o: Opnd) -> Seq<char> {
    match o {
        Opnd::Reg(n, _) => st.slots[n],
        _ => Seq::empty(),
    }
}

/// The state in which the slot of `dst` holds `v`, and every other slot what it
/// held.
pub open spec fn stored(st: Ll, s: Values, t: Values, dst: Opnd, v: i64) -> bool {
    t.mem == s.mem.insert(slot_of(st, dst), v) && t.at is None
}

/// Different values have different names, which begin with a percent sign.
proof fn lemma_value_names(a: usize, b: usize)
    ensures
        value_name(a).len() > 0,
        value_name(a)[0] == '%',
        a != b ==> value_name(a) != value_name(b),
{
    reveal(value_name);
    reveal_strlit("%");
    if a != b {
        lemma_dec_differs(a as nat, b as nat);
        assert(value_name(a).skip(1) =~= dec(a as nat));
        assert(value_name(b).skip(1) =~= dec(b as nat));
    }
}

/// An operand is loaded: behind the lines its name or number has its value. The
/// stack slots keep their contents, and every value but the next keeps its own.
proof fn lemma_load(st: Ll, o: Opnd, from: Seq<char>, s0: Values, s: Values) -> (t: Values)
    requires
        leads(from, st.out, s0, s),
        integer(st, s, o) is Some,
        s.at is None,
        st.next < usize::MAX - 8,
    ensures
        leads(from, load(st, o).0.out, s0, t),
        operand_value(t, load(st, o).1) == integer(st, s, o),
        t.mem == s.mem,
        t.at is None,
        load(st, o).0.slots == st.slots,
        st.next <= load(st, o).0.next <= st.next + 1,
        forall|x: Seq<char>|
            x != value_name(st.next) ==> operand_value(t, x) == #[trigger] operand_value(s, x),
        load(st, o).0.next == st.next ==> t == s,
        load(st, o).1 == value_name(st.next) ==> load(st, o).0.next == st.next + 1,
        load(st, o).1 != value_name(st.next) ==> forall|u: Values| #[trigger]
            operand_value(u, load(st, o).1) == integer(st, s, o),
{
    reveal(load);
    reveal_strlit("0");
    reveal_strlit("1");
    lemma_value_names(st.next, st.next);
    match o {
        Opnd::ImmI64(v) => {
            law_numbers_read_back(v);
            s
        },
        Opnd::ImmBool(b) => {
            let x = if b {
                "1"@
            } else {
                "0"@
            };
            law_numbers_read_back(truth(b) as i64);
            reveal(int_dec);
            reveal(dec);
            assert(int_dec(truth(b)) =~= x);
            s
        },
        Opnd::Reg(n, ty) => {
            lemma_none(
                st.out + "  "@ + st.value() + " = load "@ + "i64"@ + ", "@ + "i64"@ + "* "@ + st.slots[n],
            );
            let l = Line::Load { res: st.value(), ty: "i64"@, slot: st.slots[n], tail: ""@ };
            let t = with_value(s, st.value(), s.mem[st.slots[n]]);
            lemma_leads_line(from, st.out, s0, s, l, t);
            assert(load(st, o).0.out == with_line(st.out, l));
            assert forall|x: Seq<char>| x != value_name(st.next) implies operand_value(t, x)
                == #[trigger] operand_value(s, x) by {}
            t
        },
        _ => s,
    }
}

/// A value is stored.
proof fn lemma_store(st: Ll, o: Opnd, v: Seq<char>, ty: TypeHint, from: Seq<char>, s0: Values, s: Values, x: i64)
    requires
        leads(from, st.out, s0, s),
        has_slot(st, o),
        s.at is None,
        operand_value(s, v) == Some(x),
        ty == TypeHint::I64 || ty == TypeHint::Bool,
    ensures
        leads(from, store(st, o, v, ty).out, s0, Values { mem: s.mem.insert(slot_of(st, o), x), ..s }),
{
    reveal(store);
    lemma_none(st.out + "  store "@ + "i64"@ + " "@ + v + ", "@ + "i64"@ + "* "@ + slot_of(st, o));
    let l = Line::Store { ty: "i64"@, v, slot: slot_of(st, o), tail: ""@ };
    lemma_leads_line(from, st.out, s0, s, l, Values { mem: s.mem.insert(slot_of(st, o), x), ..s });
    assert(store(st, o, v, ty).out == with_line(st.out, l));
}

/// Two operands are loaded, one behind the other.
proof fn lemma_two_loads(st: Ll, l: Opnd, r: Opnd, s: Values) -> (t: Values)
    requires
        integer(st, s, l) is Some,
        integer(st, s, r) is Some,
        s.at is None,
        st.next < usize::MAX - 16,
    ensures
        ({
            let (s1, x) = load(st, l);
            let (s2, y) = load(s1, r);
            &&& leads(st.out, s2.out, s, t)
            &&& operand_value(t, x) == integer(st, s, l)
            &&& operand_value(t, y) == integer(st, s, r)
            &&& t.mem == s.mem
            &&& t.at is None
            &&& s2.slots == st.slots
            &&& s2.next < usize::MAX - 8
        }),
{
    lemma_leads_self(st.out, s);
    let t1 = lemma_load(st, l, st.out, s, s);
    let (s1, x) = load(st, l);
    let t2 = lemma_load(s1, r, st.out, s, t1);
    lemma_value_names(st.next, s1.next);
    t2
}

/// A static operation leaves its value in the stack slot of its destination:
/// the value of the operation on the left and the right operand, in this order.
/// Nothing else is stored.
pub proof fn law_operations_compute_their_value(st: Ll, op: BinOp, dst: Opnd, lhs: Opnd, rhs: Opnd, s: Values)
    requires
        st.next < usize::MAX - 16,
        s.at is None,
        has_slot(st, dst),
        integer(st, s, lhs) is Some,
        integer(st, s, rhs) is Some,
        static_value(op, integer(st, s, lhs)->Some_0, integer(st, s, rhs)->Some_0) is Some,
    ensures
        exists|t: Values| #[trigger]
            leads(st.out, emit_binary(st, op, dst, lhs, rhs, TypeHint::I64).out, s, t) && stored(
                st,
                s,
                t,
                dst,
                static_value(op, integer(st, s, lhs)->Some_0, integer(st, s, rhs)->Some_0)->Some_0,
            ),
{
    reveal(emit_binary);
    reveal(int_insn);
    lemma_names_differ();
    let t = lemma_two_loads(st, lhs, rhs, s);
    let (s1, x) = load(st, lhs);
    let (s2, y) = load(s1, rhs);
    let m = int_insn(op);
    let v = static_value(op, integer(st, s, lhs)->Some_0, integer(st, s, rhs)->Some_0)->Some_0;
    let l = Line::Arith { res: s2.value(), m, ty: "i64"@, l: x, r: y };
    assert(after_line(t, l) == Some(with_value(t, s2.value(), v)));
    lemma_leads_line(st.out, s2.out, s, t, l, with_value(t, s2.value(), v));
    let s3 = s2.fresh().with(
        s2.out + "  "@ + s2.value() + " = "@ + m + " i64 "@ + x + ", "@ + y + "\n"@,
    );
    reveal_strlit(" i64 ");
    reveal_strlit("i64");
    reveal_strlit(" ");
    assert(" i64 "@ =~= " "@ + "i64"@ + " "@);
    lemma_three(s2.out + "  "@ + s2.value() + " = "@ + m, " i64 "@, " "@, "i64"@, " "@);
    assert(s3.out == with_line(s2.out, l));
    lemma_value_names(s2.next, s2.next);
    let u = with_value(t, s2.value(), v);
    lemma_store(s3, dst, s2.value(), TypeHint::I64, st.out, s, u, v);
    let w = Values { mem: u.mem.insert(slot_of(s3, dst), v), ..u };
    let e = emit_binary(st, op, dst, lhs, rhs, TypeHint::I64);
    assert(e == store(s3, dst, s2.value(), TypeHint::I64));
    assert(leads(st.out, e.out, s, w) && stored(st, s, w, dst, v));
}

/// A comparison leaves one in the stack slot of its destination where it holds
/// of the left and the right operand, and zero where it does not.
pub proof fn law_comparisons_compute_their_truth(st: Ll, dst: Opnd, cond: Cond, lhs: Opnd, rhs: Opnd, s: Values)
    requires
        st.next < usize::MAX - 16,
        s.at is None,
        has_slot(st, dst),
        integer(st, s, lhs) is Some,
        integer(st, s, rhs) is Some,
    ensures
        exists|t: Values| #[trigger]
            leads(st.out, emit_compare(st, dst, cond, lhs, rhs, TypeHint::I64).out, s, t) && stored(
                st,
                s,
                t,
                dst,
                truth(
                    cond_holds(cond, integer(st, s, lhs)->Some_0, integer(st, s, rhs)->Some_0),
                ) as i64,
            ),
{
    reveal(emit_compare);
    reveal(compared);
    lemma_names_differ();
    let t = lemma_two_loads(st, lhs, rhs, s);
    let (s1, x) = load(st, lhs);
    let (s2, y) = load(s1, rhs);
    let p = predicate(cond, TypeHint::I64);
    let v = truth(
        cond_holds(cond, integer(st, s, lhs)->Some_0, integer(st, s, rhs)->Some_0),
    ) as i64;
    let c = s2.value();
    let l = Line::Compare { res: c, p, ty: "i64"@, l: x, r: y };
    let u = with_value(t, c, v);
    assert(after_line(t, l) == Some(u));
    lemma_leads_line(st.out, s2.out, s, t, l, u);
    reveal_strlit(" i64 ");
    reveal_strlit("i64");
    reveal_strlit(" ");
    reveal_strlit(" to i64\n");
    reveal_strlit(" to ");
    reveal_strlit("\n");
    assert(" i64 "@ =~= " "@ + "i64"@ + " "@);
    assert(" to i64\n"@ =~= " to "@ + "i64"@ + "\n"@);
    let s3 = s2.fresh().with(compared(s2.out, c, cond, x, y, TypeHint::I64));
    lemma_three(s2.out + "  "@ + c + " = icmp "@ + p, " i64 "@, " "@, "i64"@, " "@);
    assert(s3.out == with_line(s2.out, l));
    lemma_value_names(s2.next, s3.next);
    let e = s3.value();
    let w = Line::Widen { res: e, v: c, ty: "i64"@ };
    let z = with_value(u, e, v);
    assert(after_line(u, w) == Some(z));
    lemma_leads_line(st.out, s3.out, s, u, w, z);
    let s4 = s3.fresh().with(s3.out + "  "@ + e + " = zext i1 "@ + c + " to i64\n"@);
    lemma_three(s3.out + "  "@ + e + " = zext i1 "@ + c, " to i64\n"@, " to "@, "i64"@, "\n"@);
    assert(s4.out == with_line(s3.out, w));
    lemma_value_names(s3.next, s3.next);
    lemma_store(s4, dst, e, TypeHint::Bool, st.out, s, z, v);
    let y = Values { mem: z.mem.insert(slot_of(s4, dst), v), ..z };
    let end = emit_compare(st, dst, cond, lhs, rhs, TypeHint::I64);
    assert(end == store(s4, dst, e, TypeHint::Bool));
    assert(leads(st.out, end.out, s, y) && stored(st, s, y, dst, v));
}

/// A negation leaves the value with the other sign, and a logical negation turns
/// a truth value round.
pub proof fn law_negations_compute_their_value(st: Ll, dst: Opnd, src: Opnd, s: Values)
    requires
        st.next < usize::MAX - 16,
        s.at is None,
        has_slot(st, dst),
        integer(st, s, src) is Some,
    ensures
        exists|t: Values| #[trigger]
            leads(st.out, emit_neg(st, dst, src, TypeHint::I64).out, s, t) && stored(
                st,
                s,
                t,
                dst,
                wrapped(-(integer(st, s, src)->Some_0), 64) as i64,
            ),
        integer(st, s, src) == Some(0i64) ==> exists|t: Values| #[trigger]
            leads(st.out, emit_not(st, dst, src).out, s, t) && stored(st, s, t, dst, 1),
        integer(st, s, src) == Some(1i64) ==> exists|t: Values| #[trigger]
            leads(st.out, emit_not(st, dst, src).out, s, t) && stored(st, s, t, dst, 0),
{
    reveal(emit_neg);
    reveal(emit_not);
    lemma_names_differ();
    lemma_leads_self(st.out, s);
    let t = lemma_load(st, src, st.out, s, s);
    let (s1, x) = load(st, src);
    let r = s1.value();
    lemma_value_names(s1.next, s1.next);
    law_numbers_read_back(0);
    law_numbers_read_back(1);
    reveal_strlit("0");
    reveal_strlit("1");
    reveal(int_dec);
    reveal(dec);
    assert(int_dec(0) =~= "0"@);
    assert(int_dec(1) =~= "1"@);
    let a = integer(st, s, src)->Some_0;
    let v = wrapped(-a, 64) as i64;
    let l = Line::Arith { res: r, m: "sub"@, ty: "i64"@, l: "0"@, r: x };
    let u = with_value(t, r, v);
    assert(after_line(t, l) == Some(u));
    lemma_leads_line(st.out, s1.out, s, t, l, u);
    let s2 = s1.fresh().with(s1.out + "  "@ + r + " = sub i64 0, "@ + x + "\n"@);
    reveal_strlit(" = sub i64 0, ");
    reveal_strlit(" = ");
    reveal_strlit("sub");
    reveal_strlit("i64");
    reveal_strlit(" ");
    reveal_strlit(", ");
    reveal_strlit("\n");
    let o = s1.out + "  "@ + r;
    assert(" = sub i64 0, "@ =~= " = "@ + "sub"@ + (" "@ + "i64"@ + " "@ + "0"@ + ", "@));
    lemma_three(o, " = sub i64 0, "@, " = "@, "sub"@, " "@ + "i64"@ + " "@ + "0"@ + ", "@);
    assert(o + " = "@ + "sub"@ + (" "@ + "i64"@ + " "@ + "0"@ + ", "@) =~= o + " = "@ + "sub"@ + " "@ + "i64"@ + " "@ + "0"@ + ", "@);
    assert(s2.out == with_line(s1.out, l));
    lemma_store(s2, dst, r, TypeHint::I64, st.out, s, u, v);
    let y = Values { mem: u.mem.insert(slot_of(s2, dst), v), ..u };
    let end = emit_neg(st, dst, src, TypeHint::I64);
    assert(end == store(s2, dst, r, TypeHint::I64));
    assert(leads(st.out, end.out, s, y) && stored(st, s, y, dst, v));
    if a == 0 || a == 1 {
        let n = (1 - a) as i64;
        let k = Line::Arith { res: r, m: "xor"@, ty: "i64"@, l: x, r: "1"@ };
        let w = with_value(t, r, n);
        assert(0i64 ^ 1i64 == 1i64) by (bit_vector);
        assert(1i64 ^ 1i64 == 0i64) by (bit_vector);
        assert(after_line(t, k) == Some(w));
        lemma_leads_line(st.out, s1.out, s, t, k, w);
        let s3 = s1.fresh().with(s1.out + "  "@ + r + " = xor i64 "@ + x + ", 1\n"@);
        reveal_strlit(" = xor i64 ");
        reveal_strlit("xor");
        reveal_strlit(", 1\n");
        assert(" = xor i64 "@ =~= " = "@ + "xor"@ + (" "@ + "i64"@ + " "@));
        lemma_three(o, " = xor i64 "@, " = "@, "xor"@, " "@ + "i64"@ + " "@);
        assert(o + " = "@ + "xor"@ + (" "@ + "i64"@ + " "@) =~= o + " = "@ + "xor"@ + " "@ + "i64"@ + " "@);
        assert(", 1\n"@ =~= ", "@ + "1"@ + "\n"@);
        lemma_three(o + " = xor i64 "@ + x, ", 1\n"@, ", "@, "1"@, "\n"@);
        assert(s3.out == with_line(s1.out, k));
        lemma_store(s3, dst, r, TypeHint::Bool, st.out, s, w, n);
        let z = Values { mem: w.mem.insert(slot_of(s3, dst), n), ..w };
        let done = emit_not(st, dst, src);
        assert(done == store(s3, dst, r, TypeHint::Bool));
        assert(leads(st.out, done.out, s, z) && stored(st, s, z, dst, n));
    }
}

/// A branch on a comparison goes to its target where the comparison holds of the
/// left and the right operand, and goes on behind it where it does not. It stores
/// nothing.
pub proof fn law_branches_go_where_the_comparison_holds(st: Ll, cond: Cond, lhs: Opnd, rhs: Opnd, target: Seq<char>, s: Values)
    requires
        st.next < usize::MAX - 16,
        s.at is None,
        integer(st, s, lhs) is Some,
        integer(st, s, rhs) is Some,
        !clean_name(target).contains('$'),
    ensures
        exists|t: Values| #[trigger]
            leads(st.out, emit_branch(st, cond, lhs, rhs, target).out, s, t) && t.mem == s.mem && (
            if cond_holds(cond, integer(st, s, lhs)->Some_0, integer(st, s, rhs)->Some_0) {
                t.at == Some(clean_name(target))
            } else {
                t.at is None
            }),
{
    reveal(emit_branch);
    reveal(compared);
    lemma_names_differ();
    let t = lemma_two_loads(st, lhs, rhs, s);
    let (s1, x) = load(st, lhs);
    let (s2, y) = load(s1, rhs);
    let holds = cond_holds(cond, integer(st, s, lhs)->Some_0, integer(st, s, rhs)->Some_0);
    let l = Line::Compare {
        res: s2.value(),
        p: predicate(cond, TypeHint::I64),
        ty: "i64"@,
        l: x,
        r: y,
    };
    let u = with_value(t, s2.value(), truth(holds) as i64);
    assert(after_line(t, l) == Some(u));
    lemma_leads_line(st.out, s2.out, s, t, l, u);
    reveal_strlit(" i64 ");
    reveal_strlit("i64");
    reveal_strlit(" ");
    assert(" i64 "@ =~= " "@ + "i64"@ + " "@);
    let c = compared(s2.out, s2.value(), cond, x, y, TypeHint::I64);
    lemma_three(
        s2.out + "  "@ + s2.value() + " = icmp "@ + predicate(cond, TypeHint::I64),
        " i64 "@,
        " "@,
        "i64"@,
        " "@,
    );
    assert(c == with_line(s2.out, l));
    lemma_value_names(s2.next, s2.next);
    lemma_branched(st.out, c, s2.next, target, s, u, holds);
    let end = emit_branch(st, cond, lhs, rhs, target);
    let w = Values {
        at: if holds {
            Some(clean_name(target))
        } else {
            None
        },
        ..u
    };
    assert(end.out == branched(c, s2.next, target));
    assert(leads(st.out, end.out, s, w) && w.mem == s.mem);
}

/// A branch on a truth value goes to its target where the value is one, and goes
/// on behind it where it is zero. It stores nothing.
pub proof fn law_branches_go_where_the_value_is_true(st: Ll, cond: Opnd, target: Seq<char>, s: Values)
    requires
        st.next < usize::MAX - 16,
        s.at is None,
        integer(st, s, cond) is Some,
        !clean_name(target).contains('$'),
    ensures
        exists|t: Values| #[trigger]
            leads(st.out, emit_branch_true(st, cond, target).out, s, t) && t.mem == s.mem && (
            if integer(st, s, cond)->Some_0 != 0 {
                t.at == Some(clean_name(target))
            } else {
                t.at is None
            }),
{
    reveal(emit_branch_true);
    reveal(compared);
    lemma_names_differ();
    lemma_leads_self(st.out, s);
    let t = lemma_load(st, cond, st.out, s, s);
    let (s1, x) = load(st, cond);
    let holds = integer(st, s, cond)->Some_0 != 0;
    law_numbers_read_back(0);
    reveal_strlit("0");
    reveal(int_dec);
    reveal(dec);
    assert(int_dec(0) =~= "0"@);
    let l = Line::Compare { res: s1.value(), p: "ne"@, ty: "i64"@, l: x, r: "0"@ };
    let u = with_value(t, s1.value(), truth(holds) as i64);
    assert(after_line(t, l) == Some(u));
    lemma_leads_line(st.out, s1.out, s, t, l, u);
    reveal_strlit(" i64 ");
    reveal_strlit("i64");
    reveal_strlit(" ");
    assert(" i64 "@ =~= " "@ + "i64"@ + " "@);
    let c = compared(s1.out, s1.value(), Cond::Ne, x, "0"@, TypeHint::I64);
    lemma_three(
        s1.out + "  "@ + s1.value() + " = icmp "@ + "ne"@,
        " i64 "@,
        " "@,
        "i64"@,
        " "@,
    );
    assert(c == with_line(s1.out, l));
    lemma_value_names(s1.next, s1.next);
    lemma_branched(st.out, c, s1.next, target, s, u, holds);
    let end = emit_branch_true(st, cond, target);
    let w = Values {
        at: if holds {
            Some(clean_name(target))
        } else {
            None
        },
        ..u
    };
    assert(end.out == branched(c, s1.next, target));
    assert(leads(st.out, end.out, s, w) && w.mem == s.mem);
}

/// The lines of a conditional branch on value `n`.
proof fn lemma_branched(from: Seq<char>, out: Seq<char>, n: usize, target: Seq<char>, s: Values, u: Values, holds: bool)
    requires
        leads(from, out, s, u),
        u.at is None,
        !clean_name(target).contains('$'),
        operand_value(u, value_name(n)) == Some(truth(holds) as i64),
    ensures
        leads(
            from,
            branched(out, n, target),
            s,
            Values {
                at: if holds {
                    Some(clean_name(target))
                } else {
                    None
                },
                ..u
            },
        ),
{
    reveal(branched);
    let next = next_label(n);
    let yes = clean_name(target);
    lemma_labels_differ(n, target);
    let b = Line::Branch { c: value_name(n), yes, no: next };
    let v = Values {
        at: Some(
            if holds {
                yes
            } else {
                next
            },
        ),
        ..u
    };
    assert(after_line(u, b) == Some(v));
    lemma_leads_line(from, out, s, u, b, v);
    let l = Line::Label { name: next };
    let w = Values {
        at: if holds {
            Some(yes)
        } else {
            None
        },
        ..u
    };
    assert(after_line(v, l) == Some(w));
    lemma_leads_line(from, with_line(out, b), s, v, l, w);
    assert(branched(out, n, target) == with_line(with_line(out, b), l));
}

/// The label behind a branch is none that a program can name.
proof fn lemma_labels_differ(n: usize, target: Seq<char>)
    requires
        !clean_name(target).contains('$'),
    ensures
        next_label(n) != clean_name(target),
{
    reveal(next_label);
    reveal_strlit("next$");
    assert(next_label(n)[4] == '$');
    if next_label(n) == clean_name(target) {
        assert(clean_name(target)[4] == '$');
        assert(clean_name(target).contains('$'));
    }
}

} // verus!
