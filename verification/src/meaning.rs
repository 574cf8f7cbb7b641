//! What operations on machine integers mean.

use vstd::prelude::*;
use vstd::arithmetic::power2::pow2;
use crate::ast::BinaryOp;

verus! {

/// A number reduced to a word of `bits` bits in two's complement.
pub open spec fn wrapped(x: int, bits: nat) -> int {
    let half = pow2((bits - 1) as nat) as int;
    (x + half) % (2 * half) - half
}

/// The number fits in a word of `bits` bits.
pub open spec fn fits(x: int, bits: nat) -> bool {
    let half = pow2((bits - 1) as nat) as int;
    -half <= x < half
}

/// The distance of a number from zero.
pub open spec fn magnitude(x: int) -> int {
    if x < 0 {
        -x
    } else {
        x
    }
}

/// The quotient rounded towards zero.
pub open spec fn truncated(l: int, r: int) -> int {
    if (l < 0) == (r < 0) {
        magnitude(l) / magnitude(r)
    } else {
        -(magnitude(l) / magnitude(r))
    }
}

/// The remainder that belongs to the quotient rounded towards zero.
pub open spec fn left_behind(l: int, r: int) -> int {
    l - truncated(l, r) * r
}

/// One for what is true, and zero for what is not.
pub open spec fn truth(b: bool) -> int {
    if b {
        1
    } else {
        0
    }
}

/// The bits that both words have.
pub open spec fn both_bits(l: int, r: int) -> int {
    ((l as i64) & (r as i64)) as int
}

/// The bits that one word has or the other.
pub open spec fn any_bits(l: int, r: int) -> int {
    ((l as i64) | (r as i64)) as int
}

/// The bits that just one of the words has.
pub open spec fn other_bits(l: int, r: int) -> int {
    ((l as i64) ^ (r as i64)) as int
}

/// The comparison holds.
pub open spec fn compares(op: BinaryOp, l: int, r: int) -> Option<bool> {
    match op {
        BinaryOp::Eq => Some(l == r),
        BinaryOp::Ne => Some(l != r),
        BinaryOp::Lt => Some(l < r),
        BinaryOp::Gt => Some(l > r),
        BinaryOp::Le => Some(l <= r),
        BinaryOp::Ge => Some(l >= r),
        _ => None,
    }
}

/// The value of an operation on words of `bits` bits; none where it has none, as
/// for a division by zero or a shift by more than the word has.
pub open spec fn value(op: BinaryOp, l: int, r: int, bits: nat) -> Option<int> {
    match op {
        BinaryOp::Add => Some(wrapped(l + r, bits)),
        BinaryOp::Sub => Some(wrapped(l - r, bits)),
        BinaryOp::Mul => Some(wrapped(l * r, bits)),
        BinaryOp::Div => if r == 0 || !fits(truncated(l, r), bits) {
            None
        } else {
            Some(truncated(l, r))
        },
        BinaryOp::Mod => if r == 0 || !fits(truncated(l, r), bits) {
            None
        } else {
            Some(left_behind(l, r))
        },
        BinaryOp::And | BinaryOp::BitAnd => Some(both_bits(l, r)),
        BinaryOp::Or | BinaryOp::BitOr => Some(any_bits(l, r)),
        BinaryOp::BitXor => Some(other_bits(l, r)),
        BinaryOp::Shl => if 0 <= r < bits {
            Some(wrapped(l * pow2(r as nat), bits))
        } else {
            None
        },
        BinaryOp::Shr => if 0 <= r < bits {
            Some(l / (pow2(r as nat) as int))
        } else {
            None
        },
        _ => match compares(op, l, r) {
            Some(b) => Some(truth(b)),
            None => None,
        },
    }
}

/// The values of LLVM instructions on `i64`; none where the instruction has
/// none, or is not known.
pub open spec fn llvm_value(m: Seq<char>, l: i64, r: i64) -> Option<i64> {
    if m == "add"@ {
        Some(wrapped(l + r, 64) as i64)
    } else if m == "sub"@ {
        Some(wrapped(l - r, 64) as i64)
    } else if m == "mul"@ {
        Some(wrapped(l * r, 64) as i64)
    } else if m == "sdiv"@ {
        if r == 0 || (l == i64::MIN && r == -1) {
            None
        } else {
            Some(truncated(l as int, r as int) as i64)
        }
    } else if m == "srem"@ {
        if r == 0 || (l == i64::MIN && r == -1) {
            None
        } else {
            Some(left_behind(l as int, r as int) as i64)
        }
    } else if m == "and"@ {
        Some(l & r)
    } else if m == "or"@ {
        Some(l | r)
    } else if m == "xor"@ {
        Some(l ^ r)
    } else if m == "shl"@ {
        if 0 <= r < 64 {
            Some(l << r)
        } else {
            None
        }
    } else if m == "ashr"@ {
        if 0 <= r < 64 {
            Some(l >> r)
        } else {
            None
        }
    } else {
        None
    }
}

/// The predicate of an LLVM integer comparison holds; none where it is not
/// known.
pub open spec fn llvm_holds(p: Seq<char>, l: int, r: int) -> Option<bool> {
    if p == "eq"@ {
        Some(l == r)
    } else if p == "ne"@ {
        Some(l != r)
    } else if p == "slt"@ {
        Some(l < r)
    } else if p == "sgt"@ {
        Some(l > r)
    } else if p == "sle"@ {
        Some(l <= r)
    } else if p == "sge"@ {
        Some(l >= r)
    } else {
        None
    }
}

/// The names of the LLVM instructions and predicates differ.
proof fn lemma_llvm_names()
    ensures
        all_different(
            seq!["add"@, "sub"@, "mul"@, "sdiv"@, "srem"@, "and"@, "or"@, "xor"@, "shl"@, "ashr"@],
        ),
        all_different(seq!["eq"@, "ne"@, "slt"@, "sgt"@, "sle"@, "sge"@]),
{
    reveal_strlit("add");
    reveal_strlit("sub");
    reveal_strlit("mul");
    reveal_strlit("sdiv");
    reveal_strlit("srem");
    reveal_strlit("and");
    reveal_strlit("or");
    reveal_strlit("xor");
    reveal_strlit("shl");
    reveal_strlit("ashr");
    reveal_strlit("eq");
    reveal_strlit("ne");
    reveal_strlit("slt");
    reveal_strlit("sgt");
    reveal_strlit("sle");
    reveal_strlit("sge");
    let a = seq!["add"@, "sub"@, "mul"@, "sdiv"@, "srem"@, "and"@, "or"@, "xor"@, "shl"@, "ashr"@];
    assert forall|i: int, j: int| 0 <= i < j < a.len() implies #[trigger] a[i] != #[trigger] a[j] by {
        let (x, y) = (a[i], a[j]);
        assert(x.len() != y.len() || x[0] != y[0] || x[1] != y[1] || x[2] != y[2]);
    }
    let b = seq!["eq"@, "ne"@, "slt"@, "sgt"@, "sle"@, "sge"@];
    assert forall|i: int, j: int| 0 <= i < j < b.len() implies #[trigger] b[i] != #[trigger] b[j] by {
        let (x, y) = (b[i], b[j]);
        assert(x.len() != y.len() || x[0] != y[0] || x[1] != y[1] || x[2] != y[2]);
    }
}

/// The names of the LLVM instructions and predicates differ from each other.
pub proof fn lemma_names_differ()
    ensures
        "add"@ != "sub"@ && "add"@ != "mul"@ && "add"@ != "sdiv"@ && "add"@ != "srem"@ && "add"@
            != "and"@ && "add"@ != "or"@ && "add"@ != "xor"@ && "add"@ != "shl"@ && "add"@
            != "ashr"@,
        "sub"@ != "mul"@ && "sub"@ != "sdiv"@ && "sub"@ != "srem"@ && "sub"@ != "and"@ && "sub"@
            != "or"@ && "sub"@ != "xor"@ && "sub"@ != "shl"@ && "sub"@ != "ashr"@,
        "mul"@ != "sdiv"@ && "mul"@ != "srem"@ && "mul"@ != "and"@ && "mul"@ != "or"@ && "mul"@
            != "xor"@ && "mul"@ != "shl"@ && "mul"@ != "ashr"@,
        "sdiv"@ != "srem"@ && "sdiv"@ != "and"@ && "sdiv"@ != "or"@ && "sdiv"@ != "xor"@ && "sdiv"@
            != "shl"@ && "sdiv"@ != "ashr"@,
        "srem"@ != "and"@ && "srem"@ != "or"@ && "srem"@ != "xor"@ && "srem"@ != "shl"@ && "srem"@
            != "ashr"@,
        "and"@ != "or"@ && "and"@ != "xor"@ && "and"@ != "shl"@ && "and"@ != "ashr"@,
        "or"@ != "xor"@ && "or"@ != "shl"@ && "or"@ != "ashr"@,
        "xor"@ != "shl"@ && "xor"@ != "ashr"@,
        "shl"@ != "ashr"@,
        "eq"@ != "ne"@ && "eq"@ != "slt"@ && "eq"@ != "sgt"@ && "eq"@ != "sle"@ && "eq"@ != "sge"@,
        "ne"@ != "slt"@ && "ne"@ != "sgt"@ && "ne"@ != "sle"@ && "ne"@ != "sge"@,
        "slt"@ != "sgt"@ && "slt"@ != "sle"@ && "slt"@ != "sge"@,
        "sgt"@ != "sle"@ && "sgt"@ != "sge"@,
        "sle"@ != "sge"@,
{
    lemma_llvm_names();
    let a = seq!["add"@, "sub"@, "mul"@, "sdiv"@, "srem"@, "and"@, "or"@, "xor"@, "shl"@, "ashr"@];
    assert(forall|i: int, j: int| 0 <= i < j < 10 ==> #[trigger] a[i] != #[trigger] a[j]);
    assert(a[0] == "add"@ && a[1] == "sub"@ && a[2] == "mul"@ && a[3] == "sdiv"@ && a[4] == "srem"@
        && a[5] == "and"@ && a[6] == "or"@ && a[7] == "xor"@ && a[8] == "shl"@ && a[9] == "ashr"@);
    let b = seq!["eq"@, "ne"@, "slt"@, "sgt"@, "sle"@, "sge"@];
    assert(forall|i: int, j: int| 0 <= i < j < 6 ==> #[trigger] b[i] != #[trigger] b[j]);
    assert(b[0] == "eq"@ && b[1] == "ne"@ && b[2] == "slt"@ && b[3] == "sgt"@ && b[4] == "sle"@
        && b[5] == "sge"@);
}

/// No text occurs twice.
pub open spec fn all_different(s: Seq<Seq<char>>) -> bool {
    forall|i: int, j: int| 0 <= i < j < s.len() ==> #[trigger] s[i] != #[trigger] s[j]
}

/// The halves of the range of a word.
pub proof fn lemma_ranges()
    ensures
        pow2(63) == 0x8000_0000_0000_0000,
        pow2(31) == 0x8000_0000,
{
    vstd::arithmetic::power2::lemma2_to64();
    vstd::arithmetic::power2::lemma2_to64_rest();
}

} // verus!
