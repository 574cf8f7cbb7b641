//! What lines of LLVM text do.
//!
//! The lines are those of straight-line code on `i64` values in stack slots.

use vstd::prelude::*;
use crate::meaning::{llvm_holds, llvm_value, truth};
use crate::text::parse_signed;

verus! {

/// A line of LLVM text.
pub enum Line {
    /// `res = load ty, ty* slot`
    Load { res: Seq<char>, ty: Seq<char>, slot: Seq<char>, tail: Seq<char> },
    /// `store ty v, ty* slot`
    Store { ty: Seq<char>, v: Seq<char>, slot: Seq<char>, tail: Seq<char> },
    /// `res = m ty l, r`
    Arith { res: Seq<char>, m: Seq<char>, ty: Seq<char>, l: Seq<char>, r: Seq<char> },
    /// `res = icmp p ty l, r`
    Compare { res: Seq<char>, p: Seq<char>, ty: Seq<char>, l: Seq<char>, r: Seq<char> },
    /// `res = zext i1 v to ty`
    Widen { res: Seq<char>, v: Seq<char>, ty: Seq<char> },
    /// `res = alloca ty`
    Slot { res: Seq<char>, ty: Seq<char>, tail: Seq<char> },
    /// `br i1 c, label %yes, label %no`
    Branch { c: Seq<char>, yes: Seq<char>, no: Seq<char> },
    /// `br label %to`
    Jump { to: Seq<char> },
    /// `name:`
    Label { name: Seq<char> },
}

/// The text with one more line.
pub open spec fn with_line(o: Seq<char>, l: Line) -> Seq<char> {
    match l {
        Line::Load { res, ty, slot, tail } => o + "  "@ + res + " = load "@ + ty + ", "@ + ty + "* "@ + slot + tail + "\n"@,
        Line::Store { ty, v, slot, tail } => o + "  store "@ + ty + " "@ + v + ", "@ + ty + "* "@ + slot + tail + "\n"@,
        Line::Arith { res, m, ty, l, r } => o + "  "@ + res + " = "@ + m + " "@ + ty + " "@ + l + ", "@ + r + "\n"@,
        Line::Compare { res, p, ty, l, r } => o + "  "@ + res + " = icmp "@ + p + " "@ + ty + " "@ + l + ", "@ + r + "\n"@,
        Line::Widen { res, v, ty } => o + "  "@ + res + " = zext i1 "@ + v + " to "@ + ty + "\n"@,
        Line::Slot { res, ty, tail } => o + "  "@ + res + " = alloca "@ + ty + tail + "\n"@,
        Line::Branch { c, yes, no } => o + "  br i1 "@ + c + ", label %"@ + yes + ", label %"@ + no + "\n"@,
        Line::Jump { to } => o + "  br label %"@ + to + "\n"@,
        Line::Label { name } => o + name + ":\n"@,
    }
}

/// The text with more lines.
pub open spec fn with_lines(o: Seq<char>, ls: Seq<Line>) -> Seq<char>
    decreases ls.len(),
{
    if ls.len() == 0 {
        o
    } else {
        with_line(with_lines(o, ls.drop_last()), ls.last())
    }
}

/// The values so far, the contents of the stack slots, and the label that a
/// branch has gone to and that has not been met yet.
pub struct Values {
    pub vals: Map<Seq<char>, i64>,
    pub mem: Map<Seq<char>, i64>,
    pub at: Option<Seq<char>>,
}

/// The value of an operand: that of a name, or the number that is written out.
pub open spec fn operand_value(s: Values, o: Seq<char>) -> Option<i64> {
    if o.len() > 0 && o[0] == '%' {
        if s.vals.contains_key(o) {
            Some(s.vals[o])
        } else {
            None
        }
    } else {
        parse_signed(o)
    }
}

/// The state in which a name has a value.
pub open spec fn with_value(s: Values, res: Seq<char>, v: i64) -> Values {
    Values { vals: s.vals.insert(res, v), ..s }
}

/// The state behind a line; none where the line has no meaning. Behind a branch
/// every line is passed over up to the label that it goes to.
pub open spec fn after_line(s: Values, l: Line) -> Option<Values> {
    match s.at {
        Some(name) => Some(
            if l == (Line::Label { name }) {
                Values { at: None, ..s }
            } else {
                s
            },
        ),
        None => effect(s, l),
    }
}

/// What a line does; none where it has no meaning.
pub open spec fn effect(s: Values, l: Line) -> Option<Values> {
    match l {
        Line::Load { res, ty, slot, tail } => if ty == "i64"@ && s.mem.contains_key(slot) {
            Some(with_value(s, res, s.mem[slot]))
        } else {
            None
        },
        Line::Store { ty, v, slot, tail } => match operand_value(s, v) {
            Some(x) if ty == "i64"@ => Some(Values { mem: s.mem.insert(slot, x), ..s }),
            _ => None,
        },
        Line::Arith { res, m, ty, l, r } => match (operand_value(s, l), operand_value(s, r)) {
            (Some(a), Some(b)) => match llvm_value(m, a, b) {
                Some(v) if ty == "i64"@ => Some(with_value(s, res, v)),
                _ => None,
            },
            _ => None,
        },
        Line::Compare { res, p, ty, l, r } => match (operand_value(s, l), operand_value(s, r)) {
            (Some(a), Some(b)) => match llvm_holds(p, a as int, b as int) {
                Some(v) if ty == "i64"@ => Some(with_value(s, res, truth(v) as i64)),
                _ => None,
            },
            _ => None,
        },
        Line::Widen { res, v, ty } => match operand_value(s, v) {
            Some(x) if ty == "i64"@ && (x == 0 || x == 1) => Some(with_value(s, res, x)),
            _ => None,
        },
        Line::Slot { res, ty, tail } => if ty == "i64"@ {
            Some(Values { mem: s.mem.insert(res, 0), ..s })
        } else {
            None
        },
        Line::Branch { c, yes, no } => match operand_value(s, c) {
            Some(x) if x == 1 => Some(Values { at: Some(yes), ..s }),
            Some(x) if x == 0 => Some(Values { at: Some(no), ..s }),
            _ => None,
        },
        Line::Jump { to } => Some(Values { at: Some(to), ..s }),
        Line::Label { name } => Some(s),
    }
}

/// The state behind lines.
pub open spec fn after(s: Values, ls: Seq<Line>) -> Option<Values>
    decreases ls.len(),
{
    if ls.len() == 0 {
        Some(s)
    } else {
        match after(s, ls.drop_last()) {
            Some(t) => after_line(t, ls.last()),
            None => None,
        }
    }
}

/// The text `to` goes on from `from` by lines that lead from `s` to `t`.
pub open spec fn leads(from: Seq<char>, to: Seq<char>, s: Values, t: Values) -> bool {
    exists|ls: Seq<Line>| to == #[trigger] with_lines(from, ls) && after(s, ls) == Some(t)
}

/// A piece of text in two parts.
pub proof fn lemma_two(o: Seq<char>, x: Seq<char>, a: Seq<char>, b: Seq<char>)
    requires
        x == a + b,
    ensures
        o + x == o + a + b,
{
    assert(o + x =~= o + a + b);
}

/// A piece of text in three parts.
pub proof fn lemma_three(o: Seq<char>, x: Seq<char>, a: Seq<char>, b: Seq<char>, c: Seq<char>)
    requires
        x == a + b + c,
    ensures
        o + x == o + a + b + c,
{
    assert(o + x =~= o + a + b + c);
}

/// An empty piece of text.
pub proof fn lemma_none(o: Seq<char>)
    ensures
        o + ""@ == o,
{
    reveal_strlit("");
    assert(o + ""@ =~= o);
}

/// No line.
pub proof fn lemma_leads_self(x: Seq<char>, s: Values)
    ensures
        leads(x, x, s, s),
{
    let ls = Seq::<Line>::empty();
    assert(with_lines(x, ls) == x);
}

/// One more line.
pub proof fn lemma_leads_line(from: Seq<char>, to: Seq<char>, s: Values, t: Values, l: Line, u: Values)
    requires
        leads(from, to, s, t),
        after_line(t, l) == Some(u),
    ensures
        leads(from, with_line(to, l), s, u),
{
    let ls = choose|ls: Seq<Line>| to == #[trigger] with_lines(from, ls) && after(s, ls) == Some(t);
    let all = ls.push(l);
    assert(all.drop_last() =~= ls);
    assert(with_lines(from, all) == with_line(to, l));
}

} // verus!
