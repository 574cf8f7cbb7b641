//! What emitted LLVM text computes with floating-point and dynamic values.
//!
//! The laws speak of values that are whole numbers, on which the operations are
//! exact.

use vstd::prelude::*;
use crate::emit_laws::{has_slot, slot_of};
use crate::emit_llvm::{
    access_type, box_function, compared, emit_binary, emit_compare, emit_neg, float_insn, Ll, load,
    predicate, runtime_op, store, unbox_function, value_name, value_type,
};
use crate::ir::{BinOp, Cond, Opnd, TypeHint};
use crate::meaning::{left_behind, truncated, truth};
use crate::text::{dec, lemma_dec_differs};

verus! {

/// A line of LLVM text on numbers.
pub enum Line {
    /// `res = load ty, ty* slot`
    Load { res: Seq<char>, ty: Seq<char>, slot: Seq<char> },
    /// `store ty v, ty* slot`
    Store { ty: Seq<char>, v: Seq<char>, slot: Seq<char> },
    /// `res = m double l, r`
    Arith { res: Seq<char>, m: Seq<char>, l: Seq<char>, r: Seq<char> },
    /// `res = fneg double v`
    Negate { res: Seq<char>, v: Seq<char> },
    /// `res = fcmp p double l, r`
    Compare { res: Seq<char>, p: Seq<char>, l: Seq<char>, r: Seq<char> },
    /// `res = zext i1 v to i64`
    Widen { res: Seq<char>, v: Seq<char> },
    /// `res = call %vredrs_value @f(%vredrs_value l, %vredrs_value r)`
    Call { res: Seq<char>, f: Seq<char>, l: Seq<char>, r: Seq<char> },
}

/// The text with one more line.
pub open spec fn with_line(o: Seq<char>, l: Line) -> Seq<char> {
    match l {
        Line::Load { res, ty, slot } => o + "  "@ + res + " = load "@ + ty + ", "@ + ty + "* "@ + slot + "\n"@,
        Line::Store { ty, v, slot } => o + "  store "@ + ty + " "@ + v + ", "@ + ty + "* "@ + slot + "\n"@,
        Line::Arith { res, m, l, r } => o + "  "@ + res + " = "@ + m + " double "@ + l + ", "@ + r + "\n"@,
        Line::Negate { res, v } => o + "  "@ + res + " = fneg double "@ + v + "\n"@,
        Line::Compare { res, p, l, r } => o + "  "@ + res + " = fcmp "@ + p + " double "@ + l + ", "@ + r + "\n"@,
        Line::Widen { res, v } => o + "  "@ + res + " = zext i1 "@ + v + " to i64\n"@,
        Line::Call { res, f, l, r } => o + "  "@ + res + " = call %vredrs_value @"@ + f + "(%vredrs_value "@ + l + ", %vredrs_value "@ + r + ")\n"@,
    }
}

/// The text with more lines.
pub open spec fn with_lines(o: Seq<char>, ls: Seq<Line>) -> Seq<char>
    decreases ls.len(),
{
    if ls.len() == 0 {
        o
    } else {
        with_line(with_lines(o, ls.drop_last()), ls.last())
    }
}

/// The numbers so far, and the contents of the stack slots.
pub struct Numbers {
    pub vals: Map<Seq<char>, int>,
    pub mem: Map<Seq<char>, int>,
}

/// The state in which a name has a value.
pub open spec fn with_value(s: Numbers, res: Seq<char>, v: int) -> Numbers {
    Numbers { vals: s.vals.insert(res, v), ..s }
}

/// The value of a floating-point instruction on whole numbers; none where it is
/// no whole number.
pub open spec fn float_value(m: Seq<char>, l: int, r: int) -> Option<int> {
    if m == "fadd"@ {
        Some(l + r)
    } else if m == "fsub"@ {
        Some(l - r)
    } else if m == "fmul"@ {
        Some(l * r)
    } else if m == "fdiv"@ && r != 0 && left_behind(l, r) == 0 {
        Some(truncated(l, r))
    } else {
        None
    }
}

/// The floating-point predicate holds.
pub open spec fn float_holds(p: Seq<char>, l: int, r: int) -> Option<bool> {
    if p == "oeq"@ {
        Some(l == r)
    } else if p == "one"@ {
        Some(l != r)
    } else if p == "olt"@ {
        Some(l < r)
    } else if p == "ole"@ {
        Some(l <= r)
    } else if p == "ogt"@ {
        Some(l > r)
    } else if p == "oge"@ {
        Some(l >= r)
    } else {
        None
    }
}

/// What a function of the runtime gives for whole numbers.
pub open spec fn runtime_value(f: Seq<char>, l: int, r: int) -> Option<int> {
    if f == "vredrs_value_add"@ {
        Some(l + r)
    } else if f == "vredrs_value_sub"@ {
        Some(l - r)
    } else if f == "vredrs_value_mul"@ {
        Some(l * r)
    } else if f == "vredrs_value_div"@ && r != 0 && left_behind(l, r) == 0 {
        Some(truncated(l, r))
    } else if f == "vredrs_value_mod"@ && r > 0 && l >= 0 {
        Some(left_behind(l, r))
    } else if f == "vredrs_value_eq"@ {
        Some(truth(l == r))
    } else if f == "vredrs_value_ne"@ {
        Some(truth(l != r))
    } else if f == "vredrs_value_lt"@ {
        Some(truth(l < r))
    } else if f == "vredrs_value_le"@ {
        Some(truth(l <= r))
    } else if f == "vredrs_value_gt"@ {
        Some(truth(l > r))
    } else if f == "vredrs_value_ge"@ {
        Some(truth(l >= r))
    } else {
        None
    }
}

/// What a line does; none where it has no meaning.
pub open spec fn effect(s: Numbers, l: Line) -> Option<Numbers> {
    match l {
        Line::Load { res, ty, slot } => if s.mem.contains_key(slot) {
            Some(with_value(s, res, s.mem[slot]))
        } else {
            None
        },
        Line::Store { ty, v, slot } => if s.vals.contains_key(v) {
            Some(Numbers { mem: s.mem.insert(slot, s.vals[v]), ..s })
        } else {
            None
        },
        Line::Arith { res, m, l, r } => if s.vals.contains_key(l) && s.vals.contains_key(r) {
            match float_value(m, s.vals[l], s.vals[r]) {
                Some(x) => Some(with_value(s, res, x)),
                None => None,
            }
        } else {
            None
        },
        Line::Negate { res, v } => if s.vals.contains_key(v) {
            Some(with_value(s, res, -s.vals[v]))
        } else {
            None
        },
        Line::Compare { res, p, l, r } => if s.vals.contains_key(l) && s.vals.contains_key(r) {
            match float_holds(p, s.vals[l], s.vals[r]) {
                Some(b) => Some(with_value(s, res, truth(b))),
                None => None,
            }
        } else {
            None
        },
        Line::Widen { res, v } => if s.vals.contains_key(v) {
            Some(with_value(s, res, s.vals[v]))
        } else {
            None
        },
        Line::Call { res, f, l, r } => if s.vals.contains_key(l) && s.vals.contains_key(r) {
            match runtime_value(f, s.vals[l], s.vals[r]) {
                Some(x) => Some(with_value(s, res, x)),
                None => None,
            }
        } else {
            None
        },
    }
}

/// The state behind lines.
pub open spec fn after(s: Numbers, ls: Seq<Line>) -> Option<Numbers>
    decreases ls.len(),
{
    if ls.len() == 0 {
        Some(s)
    } else {
        match after(s, ls.drop_last()) {
            Some(t) => effect(t, ls.last()),
            None => None,
        }
    }
}

/// The text `to` goes on from `from` by lines that lead from `s` to `t`.
pub open spec fn leads(from: Seq<char>, to: Seq<char>, s: Numbers, t: Numbers) -> bool {
    exists|ls: Seq<Line>| to == #[trigger] with_lines(from, ls) && after(s, ls) == Some(t)
}

/// One more line.
proof fn lemma_line(from: Seq<char>, to: Seq<char>, s: Numbers, t: Numbers, l: Line) -> (u: Numbers)
    requires
        leads(from, to, s, t),
        effect(t, l) is Some,
    ensures
        leads(from, with_line(to, l), s, u),
        u == effect(t, l)->Some_0,
{
    let ls = choose|ls: Seq<Line>| to == #[trigger] with_lines(from, ls) && after(s, ls) == Some(t);
    let all = ls.push(l);
    assert(all.drop_last() =~= ls);
    assert(with_lines(from, all) == with_line(to, l));
    effect(t, l)->Some_0
}

/// The names of the operations differ.
proof fn lemma_float_names()
    ensures
        "fadd"@ != "fsub"@,
        "fadd"@ != "fmul"@,
        "fadd"@ != "fdiv"@,
        "fsub"@ != "fmul"@,
        "fsub"@ != "fdiv"@,
        "fmul"@ != "fdiv"@,
{
    reveal_strlit("fadd");
    reveal_strlit("fsub");
    reveal_strlit("fmul");
    reveal_strlit("fdiv");
    assert("fadd"@[1] != "fsub"@[1]);
    assert("fadd"@[1] != "fmul"@[1]);
    assert("fadd"@[1] != "fdiv"@[1]);
    assert("fsub"@[1] != "fmul"@[1]);
    assert("fsub"@[1] != "fdiv"@[1]);
    assert("fmul"@[1] != "fdiv"@[1]);
}

/// The names of the predicates differ.
proof fn lemma_predicates()
    ensures
        "oeq"@ != "one"@,
        "oeq"@ != "olt"@,
        "oeq"@ != "ole"@,
        "oeq"@ != "ogt"@,
        "oeq"@ != "oge"@,
        "one"@ != "olt"@,
        "one"@ != "ole"@,
        "one"@ != "ogt"@,
        "one"@ != "oge"@,
        "olt"@ != "ole"@,
        "olt"@ != "ogt"@,
        "olt"@ != "oge"@,
        "ole"@ != "ogt"@,
        "ole"@ != "oge"@,
        "ogt"@ != "oge"@,
{
    reveal_strlit("oeq");
    reveal_strlit("one");
    reveal_strlit("olt");
    reveal_strlit("ole");
    reveal_strlit("ogt");
    reveal_strlit("oge");
    assert("oeq"@[1] != "one"@[1]);
    assert("oeq"@[1] != "olt"@[1]);
    assert("oeq"@[1] != "ole"@[1]);
    assert("oeq"@[1] != "ogt"@[1]);
    assert("oeq"@[1] != "oge"@[1]);
    assert("one"@[1] != "olt"@[1]);
    assert("one"@[1] != "ole"@[1]);
    assert("one"@[1] != "ogt"@[1]);
    assert("one"@[1] != "oge"@[1]);
    assert("olt"@[2] != "ole"@[2]);
    assert("olt"@[1] != "ogt"@[1]);
    assert("olt"@[1] != "oge"@[1]);
    assert("ole"@[1] != "ogt"@[1]);
    assert("ole"@[1] != "oge"@[1]);
    assert("ogt"@[2] != "oge"@[2]);
}

/// The names of the runtime functions differ.
proof fn lemma_runtime_names()
    ensures
        "vredrs_value_add"@ != "vredrs_value_sub"@,
        "vredrs_value_add"@ != "vredrs_value_mul"@,
        "vredrs_value_add"@ != "vredrs_value_div"@,
        "vredrs_value_add"@ != "vredrs_value_mod"@,
        "vredrs_value_add"@ != "vredrs_value_eq"@,
        "vredrs_value_add"@ != "vredrs_value_ne"@,
        "vredrs_value_add"@ != "vredrs_value_lt"@,
        "vredrs_value_add"@ != "vredrs_value_le"@,
        "vredrs_value_add"@ != "vredrs_value_gt"@,
        "vredrs_value_add"@ != "vredrs_value_ge"@,
        "vredrs_value_sub"@ != "vredrs_value_mul"@,
        "vredrs_value_sub"@ != "vredrs_value_div"@,
        "vredrs_value_sub"@ != "vredrs_value_mod"@,
        "vredrs_value_sub"@ != "vredrs_value_eq"@,
        "vredrs_value_sub"@ != "vredrs_value_ne"@,
        "vredrs_value_sub"@ != "vredrs_value_lt"@,
        "vredrs_value_sub"@ != "vredrs_value_le"@,
        "vredrs_value_sub"@ != "vredrs_value_gt"@,
        "vredrs_value_sub"@ != "vredrs_value_ge"@,
        "vredrs_value_mul"@ != "vredrs_value_div"@,
        "vredrs_value_mul"@ != "vredrs_value_mod"@,
        "vredrs_value_mul"@ != "vredrs_value_eq"@,
        "vredrs_value_mul"@ != "vredrs_value_ne"@,
        "vredrs_value_mul"@ != "vredrs_value_lt"@,
        "vredrs_value_mul"@ != "vredrs_value_le"@,
        "vredrs_value_mul"@ != "vredrs_value_gt"@,
        "vredrs_value_mul"@ != "vredrs_value_ge"@,
        "vredrs_value_div"@ != "vredrs_value_mod"@,
        "vredrs_value_div"@ != "vredrs_value_eq"@,
        "vredrs_value_div"@ != "vredrs_value_ne"@,
        "vredrs_value_div"@ != "vredrs_value_lt"@,
        "vredrs_value_div"@ != "vredrs_value_le"@,
        "vredrs_value_div"@ != "vredrs_value_gt"@,
        "vredrs_value_div"@ != "vredrs_value_ge"@,
        "vredrs_value_mod"@ != "vredrs_value_eq"@,
        "vredrs_value_mod"@ != "vredrs_value_ne"@,
        "vredrs_value_mod"@ != "vredrs_value_lt"@,
        "vredrs_value_mod"@ != "vredrs_value_le"@,
        "vredrs_value_mod"@ != "vredrs_value_gt"@,
        "vredrs_value_mod"@ != "vredrs_value_ge"@,
        "vredrs_value_eq"@ != "vredrs_value_ne"@,
        "vredrs_value_eq"@ != "vredrs_value_lt"@,
        "vredrs_value_eq"@ != "vredrs_value_le"@,
        "vredrs_value_eq"@ != "vredrs_value_gt"@,
        "vredrs_value_eq"@ != "vredrs_value_ge"@,
        "vredrs_value_ne"@ != "vredrs_value_lt"@,
        "vredrs_value_ne"@ != "vredrs_value_le"@,
        "vredrs_value_ne"@ != "vredrs_value_gt"@,
        "vredrs_value_ne"@ != "vredrs_value_ge"@,
        "vredrs_value_lt"@ != "vredrs_value_le"@,
        "vredrs_value_lt"@ != "vredrs_value_gt"@,
        "vredrs_value_lt"@ != "vredrs_value_ge"@,
        "vredrs_value_le"@ != "vredrs_value_gt"@,
        "vredrs_value_le"@ != "vredrs_value_ge"@,
        "vredrs_value_gt"@ != "vredrs_value_ge"@,
{
    reveal_strlit("vredrs_value_add");
    reveal_strlit("vredrs_value_sub");
    reveal_strlit("vredrs_value_mul");
    reveal_strlit("vredrs_value_div");
    reveal_strlit("vredrs_value_mod");
    reveal_strlit("vredrs_value_eq");
    reveal_strlit("vredrs_value_ne");
    reveal_strlit("vredrs_value_lt");
    reveal_strlit("vredrs_value_le");
    reveal_strlit("vredrs_value_gt");
    reveal_strlit("vredrs_value_ge");
    assert("vredrs_value_add"@[13] != "vredrs_value_sub"@[13]);
    assert("vredrs_value_add"@[13] != "vredrs_value_mul"@[13]);
    assert("vredrs_value_add"@[13] != "vredrs_value_div"@[13]);
    assert("vredrs_value_add"@[13] != "vredrs_value_mod"@[13]);
    assert("vredrs_value_add"@.len() != "vredrs_value_eq"@.len());
    assert("vredrs_value_add"@.len() != "vredrs_value_ne"@.len());
    assert("vredrs_value_add"@.len() != "vredrs_value_lt"@.len());
    assert("vredrs_value_add"@.len() != "vredrs_value_le"@.len());
    assert("vredrs_value_add"@.len() != "vredrs_value_gt"@.len());
    assert("vredrs_value_add"@.len() != "vredrs_value_ge"@.len());
    assert("vredrs_value_sub"@[13] != "vredrs_value_mul"@[13]);
    assert("vredrs_value_sub"@[13] != "vredrs_value_div"@[13]);
    assert("vredrs_value_sub"@[13] != "vredrs_value_mod"@[13]);
    assert("vredrs_value_sub"@.len() != "vredrs_value_eq"@.len());
    assert("vredrs_value_sub"@.len() != "vredrs_value_ne"@.len());
    assert("vredrs_value_sub"@.len() != "vredrs_value_lt"@.len());
    assert("vredrs_value_sub"@.len() != "vredrs_value_le"@.len());
    assert("vredrs_value_sub"@.len() != "vredrs_value_gt"@.len());
    assert("vredrs_value_sub"@.len() != "vredrs_value_ge"@.len());
    assert("vredrs_value_mul"@[13] != "vredrs_value_div"@[13]);
    assert("vredrs_value_mul"@[14] != "vredrs_value_mod"@[14]);
    assert("vredrs_value_mul"@.len() != "vredrs_value_eq"@.len());
    assert("vredrs_value_mul"@.len() != "vredrs_value_ne"@.len());
    assert("vredrs_value_mul"@.len() != "vredrs_value_lt"@.len());
    assert("vredrs_value_mul"@.len() != "vredrs_value_le"@.len());
    assert("vredrs_value_mul"@.len() != "vredrs_value_gt"@.len());
    assert("vredrs_value_mul"@.len() != "vredrs_value_ge"@.len());
    assert("vredrs_value_div"@[13] != "vredrs_value_mod"@[13]);
    assert("vredrs_value_div"@.len() != "vredrs_value_eq"@.len());
    assert("vredrs_value_div"@.len() != "vredrs_value_ne"@.len());
    assert("vredrs_value_div"@.len() != "vredrs_value_lt"@.len());
    assert("vredrs_value_div"@.len() != "vredrs_value_le"@.len());
    assert("vredrs_value_div"@.len() != "vredrs_value_gt"@.len());
    assert("vredrs_value_div"@.len() != "vredrs_value_ge"@.len());
    assert("vredrs_value_mod"@.len() != "vredrs_value_eq"@.len());
    assert("vredrs_value_mod"@.len() != "vredrs_value_ne"@.len());
    assert("vredrs_value_mod"@.len() != "vredrs_value_lt"@.len());
    assert("vredrs_value_mod"@.len() != "vredrs_value_le"@.len());
    assert("vredrs_value_mod"@.len() != "vredrs_value_gt"@.len());
    assert("vredrs_value_mod"@.len() != "vredrs_value_ge"@.len());
    assert("vredrs_value_eq"@[13] != "vredrs_value_ne"@[13]);
    assert("vredrs_value_eq"@[13] != "vredrs_value_lt"@[13]);
    assert("vredrs_value_eq"@[13] != "vredrs_value_le"@[13]);
    assert("vredrs_value_eq"@[13] != "vredrs_value_gt"@[13]);
    assert("vredrs_value_eq"@[13] != "vredrs_value_ge"@[13]);
    assert("vredrs_value_ne"@[13] != "vredrs_value_lt"@[13]);
    assert("vredrs_value_ne"@[13] != "vredrs_value_le"@[13]);
    assert("vredrs_value_ne"@[13] != "vredrs_value_gt"@[13]);
    assert("vredrs_value_ne"@[13] != "vredrs_value_ge"@[13]);
    assert("vredrs_value_lt"@[14] != "vredrs_value_le"@[14]);
    assert("vredrs_value_lt"@[13] != "vredrs_value_gt"@[13]);
    assert("vredrs_value_lt"@[13] != "vredrs_value_ge"@[13]);
    assert("vredrs_value_le"@[13] != "vredrs_value_gt"@[13]);
    assert("vredrs_value_le"@[13] != "vredrs_value_ge"@[13]);
    assert("vredrs_value_gt"@[14] != "vredrs_value_ge"@[14]);
}

/// The number that a register holds.
pub open spec fn number(st: Ll, s: Numbers, o: Opnd) -> Option<int> {
    match o {
        Opnd::Reg(n, _) => if st.slots.contains_key(n) && s.mem.contains_key(st.slots[n]) {
            Some(s.mem[st.slots[n]])
        } else {
            None
        },
        _ => None,
    }
}

/// The value of a static or dynamic operation on whole numbers; none where it is
/// no whole number.
pub open spec fn exact_value(op: BinOp, l: int, r: int) -> Option<int> {
    match op {
        BinOp::Add | BinOp::AddDyn => Some(l + r),
        BinOp::Sub | BinOp::SubDyn => Some(l - r),
        BinOp::Mul | BinOp::MulDyn => Some(l * r),
        BinOp::Div | BinOp::DivDyn => if r != 0 && left_behind(l, r) == 0 {
            Some(truncated(l, r))
        } else {
            None
        },
        BinOp::ModDyn => if r > 0 && l >= 0 {
            Some(left_behind(l, r))
        } else {
            None
        },
        BinOp::EqDyn => Some(truth(l == r)),
        BinOp::NeDyn => Some(truth(l != r)),
        BinOp::LtDyn => Some(truth(l < r)),
        BinOp::LeDyn => Some(truth(l <= r)),
        BinOp::GtDyn => Some(truth(l > r)),
        BinOp::GeDyn => Some(truth(l >= r)),
        _ => None,
    }
}

/// Different values have different names.
proof fn lemma_names(a: usize, b: usize)
    requires
        a != b,
    ensures
        value_name(a) != value_name(b),
{
    reveal(value_name);
    lemma_dec_differs(a as nat, b as nat);
    reveal_strlit("%");
    assert(value_name(a).skip(1) =~= dec(a as nat));
    assert(value_name(b).skip(1) =~= dec(b as nat));
}

/// A register is loaded.
proof fn lemma_load(st: Ll, o: Opnd, from: Seq<char>, s0: Numbers, s: Numbers) -> (t: Numbers)
    requires
        leads(from, st.out, s0, s),
        number(st, s, o) is Some,
        st.next < usize::MAX - 8,
    ensures
        leads(from, load(st, o).0.out, s0, t),
        t == with_value(s, value_name(st.next), number(st, s, o)->Some_0),
        load(st, o).1 == value_name(st.next),
        load(st, o).0.slots == st.slots,
        load(st, o).0.next == st.next + 1,
{
    reveal(load);
    match o {
        Opnd::Reg(n, ty) => {
            let l = Line::Load { res: st.value(), ty: value_type(ty), slot: st.slots[n] };
            let t = lemma_line(from, st.out, s0, s, l);
            assert(load(st, o).0.out == with_line(st.out, l));
            t
        },
        _ => s,
    }
}

/// A value is stored.
proof fn lemma_store(st: Ll, o: Opnd, v: Seq<char>, ty: TypeHint, from: Seq<char>, s0: Numbers, s: Numbers) -> (t: Numbers)
    requires
        leads(from, st.out, s0, s),
        has_slot(st, o),
        s.vals.contains_key(v),
    ensures
        leads(from, store(st, o, v, ty).out, s0, t),
        t == (Numbers { mem: s.mem.insert(slot_of(st, o), s.vals[v]), ..s }),
{
    reveal(store);
    let l = Line::Store { ty: value_type(ty), v, slot: slot_of(st, o) };
    let t = lemma_line(from, st.out, s0, s, l);
    assert(store(st, o, v, ty).out == with_line(st.out, l));
    t
}

/// Two registers are loaded, one behind the other.
proof fn lemma_loads(st: Ll, lhs: Opnd, rhs: Opnd, s: Numbers) -> (t: Numbers)
    requires
        number(st, s, lhs) is Some,
        number(st, s, rhs) is Some,
        st.next < usize::MAX - 16,
    ensures
        ({
            let (s1, x) = load(st, lhs);
            let (s2, y) = load(s1, rhs);
            &&& leads(st.out, s2.out, s, t)
            &&& t.vals.contains_key(x)
            &&& t.vals.contains_key(y)
            &&& t.vals[x] == number(st, s, lhs)->Some_0
            &&& t.vals[y] == number(st, s, rhs)->Some_0
            &&& t.mem == s.mem
            &&& s2.slots == st.slots
            &&& s2.next == st.next + 2
        }),
{
    let none = Seq::<Line>::empty();
    assert(with_lines(st.out, none) == st.out);
    assert(leads(st.out, st.out, s, s));
    let t1 = lemma_load(st, lhs, st.out, s, s);
    let (s1, x) = load(st, lhs);
    let t2 = lemma_load(s1, rhs, st.out, s, t1);
    lemma_names(st.next, s1.next);
    t2
}

/// A static operation on floating-point numbers, and a dynamic operation, leaves
/// the value of the operation on the left and the right operand, in this order,
/// in the stack slot of its destination. Nothing else is stored.
pub proof fn law_operations_compute_their_value(st: Ll, op: BinOp, dst: Opnd, lhs: Opnd, rhs: Opnd, s: Numbers)
    requires
        st.next < usize::MAX - 16,
        has_slot(st, dst),
        number(st, s, lhs) is Some,
        number(st, s, rhs) is Some,
        exact_value(op, number(st, s, lhs)->Some_0, number(st, s, rhs)->Some_0) is Some,
    ensures
        exists|t: Numbers| #[trigger]
            leads(st.out, emit_binary(st, op, dst, lhs, rhs, TypeHint::F64).out, s, t) && t.mem
                == s.mem.insert(
                slot_of(st, dst),
                exact_value(op, number(st, s, lhs)->Some_0, number(st, s, rhs)->Some_0)->Some_0,
            ),
{
    reveal(emit_binary);
    reveal(float_insn);
    lemma_float_names();
    lemma_runtime_names();
    let t = lemma_loads(st, lhs, rhs, s);
    let (s1, x) = load(st, lhs);
    let (s2, y) = load(s1, rhs);
    let (a, b) = (number(st, s, lhs)->Some_0, number(st, s, rhs)->Some_0);
    let res = s2.value();
    let l = if op.dynamic() {
        Line::Call { res, f: runtime_op(op), l: x, r: y }
    } else {
        Line::Arith { res, m: float_insn(op), l: x, r: y }
    };
    let u = lemma_line(st.out, s2.out, s, t, l);
    let ty = if op.dynamic() {
        TypeHint::Dynamic
    } else {
        TypeHint::F64
    };
    let w = lemma_store(s2.fresh().with(with_line(s2.out, l)), dst, res, ty, st.out, s, u);
    assert(w.mem == s.mem.insert(slot_of(st, dst), exact_value(op, a, b)->Some_0));
    assert(leads(st.out, emit_binary(st, op, dst, lhs, rhs, TypeHint::F64).out, s, w));
}

/// The condition holds of two numbers.
pub open spec fn cond_holds(c: Cond, l: int, r: int) -> bool {
    match c {
        Cond::Eq => l == r,
        Cond::Ne => l != r,
        Cond::Lt => l < r,
        Cond::Le => l <= r,
        Cond::Gt => l > r,
        Cond::Ge => l >= r,
    }
}

/// A comparison of floating-point numbers leaves one in the stack slot of its
/// destination where it holds, and zero where it does not.
pub proof fn law_comparisons_compute_their_truth(st: Ll, dst: Opnd, cond: Cond, lhs: Opnd, rhs: Opnd, s: Numbers)
    requires
        st.next < usize::MAX - 16,
        has_slot(st, dst),
        number(st, s, lhs) is Some,
        number(st, s, rhs) is Some,
    ensures
        exists|t: Numbers| #[trigger]
            leads(st.out, emit_compare(st, dst, cond, lhs, rhs, TypeHint::F64).out, s, t) && t.mem
                == s.mem.insert(
                slot_of(st, dst),
                truth(cond_holds(cond, number(st, s, lhs)->Some_0, number(st, s, rhs)->Some_0)),
            ),
{
    reveal(emit_compare);
    reveal(compared);
    lemma_predicates();
    let t = lemma_loads(st, lhs, rhs, s);
    let (s1, x) = load(st, lhs);
    let (s2, y) = load(s1, rhs);
    let c = s2.value();
    let l = Line::Compare { res: c, p: predicate(cond, TypeHint::F64), l: x, r: y };
    let u = lemma_line(st.out, s2.out, s, t, l);
    let s3 = s2.fresh().with(with_line(s2.out, l));
    let e = s3.value();
    let k = Line::Widen { res: e, v: c };
    let z = lemma_line(st.out, s3.out, s, u, k);
    let s4 = s3.fresh().with(with_line(s3.out, k));
    let w = lemma_store(s4, dst, e, TypeHint::Bool, st.out, s, z);
    assert(leads(st.out, emit_compare(st, dst, cond, lhs, rhs, TypeHint::F64).out, s, w));
}

/// The negation of a floating-point number leaves its opposite in the stack slot
/// of its destination.
pub proof fn law_negations_compute_their_value(st: Ll, dst: Opnd, src: Opnd, s: Numbers)
    requires
        st.next < usize::MAX - 16,
        has_slot(st, dst),
        number(st, s, src) is Some,
    ensures
        exists|t: Numbers| #[trigger]
            leads(st.out, emit_neg(st, dst, src, TypeHint::F64).out, s, t) && t.mem == s.mem.insert(
                slot_of(st, dst),
                -(number(st, s, src)->Some_0),
            ),
{
    reveal(emit_neg);
    let none = Seq::<Line>::empty();
    assert(with_lines(st.out, none) == st.out);
    assert(leads(st.out, st.out, s, s));
    let t = lemma_load(st, src, st.out, s, s);
    let (s1, v) = load(st, src);
    let l = Line::Negate { res: s1.value(), v };
    let u = lemma_line(st.out, s1.out, s, t, l);
    let w = lemma_store(
        s1.fresh().with(with_line(s1.out, l)),
        dst,
        s1.value(),
        TypeHint::F64,
        st.out,
        s,
        u,
    );
    assert(leads(st.out, emit_neg(st, dst, src, TypeHint::F64).out, s, w));
}

/// What is boxed can be unboxed: a type has a function that makes a dynamic value
/// just where it has one that gets it back, the two are of the same kind of
/// value, and no two types share a kind.
pub proof fn law_boxes_open_to_what_they_hold(t: TypeHint, u: TypeHint)
    ensures
        box_function(t) is Some == unbox_function(t) is Some,
        box_function(t) is Some ==> exists|k: Seq<char>|
            box_function(t) == Some(#[trigger] ("vredrs_value_make_"@ + k)) && unbox_function(t) == Some(
                "vredrs_value_get_"@ + k,
            ),
        box_function(t) is Some && box_function(t) == box_function(u) ==> t == u,
        unbox_function(t) is Some && unbox_function(t) == unbox_function(u) ==> t == u,
{
    reveal(unbox_function);
    reveal_strlit("vredrs_value_make_");
    reveal_strlit("vredrs_value_get_");
    reveal_strlit("vredrs_value_make_i64");
    reveal_strlit("vredrs_value_make_f64");
    reveal_strlit("vredrs_value_make_bool");
    reveal_strlit("vredrs_value_get_i64");
    reveal_strlit("vredrs_value_get_f64");
    reveal_strlit("vredrs_value_get_bool");
    reveal_strlit("i64");
    reveal_strlit("f64");
    reveal_strlit("bool");
    assert("vredrs_value_make_i64"@ =~= "vredrs_value_make_"@ + "i64"@);
    assert("vredrs_value_make_f64"@ =~= "vredrs_value_make_"@ + "f64"@);
    assert("vredrs_value_make_bool"@ =~= "vredrs_value_make_"@ + "bool"@);
    assert("vredrs_value_get_i64"@ =~= "vredrs_value_get_"@ + "i64"@);
    assert("vredrs_value_get_f64"@ =~= "vredrs_value_get_"@ + "f64"@);
    assert("vredrs_value_get_bool"@ =~= "vredrs_value_get_"@ + "bool"@);
    assert("vredrs_value_make_i64"@[18] == 'i' && "vredrs_value_make_f64"@[18] == 'f');
    assert("vredrs_value_make_bool"@[18] == 'b');
    assert("vredrs_value_get_i64"@[17] == 'i' && "vredrs_value_get_f64"@[17] == 'f');
    assert("vredrs_value_get_bool"@[17] == 'b');
}

/// An access to memory is as wide as its number of bytes says.
pub proof fn law_accesses_have_their_width(n: u32)
    requires
        n == 1 || n == 2 || n == 4 || n == 8,
    ensures
        access_type(n) == "i"@ + dec((8 * n) as nat),
{
    reveal_with_fuel(dec, 3);
    reveal_strlit("i");
    reveal_strlit("i8");
    reveal_strlit("i16");
    reveal_strlit("i32");
    reveal_strlit("i64");
    assert("i8"@ =~= "i"@ + dec(8));
    assert("i16"@ =~= "i"@ + dec(16));
    assert("i32"@ =~= "i"@ + dec(32));
    assert("i64"@ =~= "i"@ + dec(64));
}

} // verus!
