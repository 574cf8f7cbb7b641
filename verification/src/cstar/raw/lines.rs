//! Lines of assembly text.
//!
//! Each `ins*` function is the text of one line; the `emit*` function of the
//! same shape appends that line to a buffer.

use vstd::prelude::*;
use crate::text::{int_dec, push_int};

verus! {

/// `label:`
#[verifier::opaque]
pub open spec fn label_line(l: Seq<char>) -> Seq<char> {
    l + ":\n"@
}

/// An instruction with one operand.
#[verifier::opaque]
pub open spec fn ins1(op: Seq<char>, a: Seq<char>) -> Seq<char> {
    "    "@ + op + " "@ + a + "\n"@
}

/// An instruction with two operands.
#[verifier::opaque]
pub open spec fn ins2(op: Seq<char>, a: Seq<char>, b: Seq<char>) -> Seq<char> {
    "    "@ + op + " "@ + a + ", "@ + b + "\n"@
}

/// An instruction with three operands.
#[verifier::opaque]
pub open spec fn ins3(op: Seq<char>, a: Seq<char>, b: Seq<char>, c: Seq<char>) -> Seq<char> {
    "    "@ + op + " "@ + a + ", "@ + b + ", "@ + c + "\n"@
}

/// An instruction with four operands.
#[verifier::opaque]
pub open spec fn ins4(
    op: Seq<char>,
    a: Seq<char>,
    b: Seq<char>,
    c: Seq<char>,
    d: Seq<char>,
) -> Seq<char> {
    "    "@ + op + " "@ + a + ", "@ + b + ", "@ + c + ", "@ + d + "\n"@
}

/// An instruction with one register and a `#` immediate.
#[verifier::opaque]
pub open spec fn ins1i(op: Seq<char>, a: Seq<char>, n: int) -> Seq<char> {
    "    "@ + op + " "@ + a + ", #"@ + int_dec(n) + "\n"@
}

/// An instruction with two registers and a `#` immediate.
#[verifier::opaque]
pub open spec fn ins2i(op: Seq<char>, a: Seq<char>, b: Seq<char>, n: int) -> Seq<char> {
    "    "@ + op + " "@ + a + ", "@ + b + ", #"@ + int_dec(n) + "\n"@
}

/// A load or store at a `#` offset from a base register.
#[verifier::opaque]
pub open spec fn mem_line(op: Seq<char>, r: Seq<char>, base: Seq<char>, off: int) -> Seq<char> {
    "    "@ + op + " "@ + r + ", ["@ + base + ", #"@ + int_dec(off) + "]\n"@
}

/// An instruction with one register and a bare immediate.
#[verifier::opaque]
pub open spec fn ins1n(op: Seq<char>, a: Seq<char>, n: int) -> Seq<char> {
    "    "@ + op + " "@ + a + ", "@ + int_dec(n) + "\n"@
}

/// Appends `label:`.
pub fn emit_label(out: &mut String, l: &str)
    ensures
        final(out)@ == old(out)@ + label_line(l@),
{
    proof {
        reveal(label_line);
    }
    out.append(l);
    out.append(":\n");
    assert(out@ =~= old(out)@ + label_line(l@));
}

/// Appends an instruction with one operand.
pub fn emit1(out: &mut String, op: &str, a: &str)
    ensures
        final(out)@ == old(out)@ + ins1(op@, a@),
{
    proof {
        reveal(ins1);
    }
    out.append("    ");
    out.append(op);
    out.append(" ");
    out.append(a);
    out.append("\n");
    assert(out@ =~= old(out)@ + ins1(op@, a@));
}

/// Appends an instruction with two operands.
pub fn emit2(out: &mut String, op: &str, a: &str, b: &str)
    ensures
        final(out)@ == old(out)@ + ins2(op@, a@, b@),
{
    proof {
        reveal(ins2);
    }
    out.append("    ");
    out.append(op);
    out.append(" ");
    out.append(a);
    out.append(", ");
    out.append(b);
    out.append("\n");
    assert(out@ =~= old(out)@ + ins2(op@, a@, b@));
}

/// Appends an instruction with three operands.
pub fn emit3(out: &mut String, op: &str, a: &str, b: &str, c: &str)
    ensures
        final(out)@ == old(out)@ + ins3(op@, a@, b@, c@),
{
    proof {
        reveal(ins3);
    }
    out.append("    ");
    out.append(op);
    out.append(" ");
    out.append(a);
    out.append(", ");
    out.append(b);
    out.append(", ");
    out.append(c);
    out.append("\n");
    assert(out@ =~= old(out)@ + ins3(op@, a@, b@, c@));
}

/// Appends an instruction with four operands.
pub fn emit4(out: &mut String, op: &str, a: &str, b: &str, c: &str, d: &str)
    ensures
        final(out)@ == old(out)@ + ins4(op@, a@, b@, c@, d@),
{
    proof {
        reveal(ins4);
    }
    out.append("    ");
    out.append(op);
    out.append(" ");
    out.append(a);
    out.append(", ");
    out.append(b);
    out.append(", ");
    out.append(c);
    out.append(", ");
    out.append(d);
    out.append("\n");
    assert(out@ =~= old(out)@ + ins4(op@, a@, b@, c@, d@));
}

/// Appends an instruction with one register and a `#` immediate.
pub fn emit1i(out: &mut String, op: &str, a: &str, n: i64)
    ensures
        final(out)@ == old(out)@ + ins1i(op@, a@, n as int),
{
    proof {
        reveal(ins1i);
    }
    out.append("    ");
    out.append(op);
    out.append(" ");
    out.append(a);
    out.append(", #");
    push_int(out, n);
    out.append("\n");
    assert(out@ =~= old(out)@ + ins1i(op@, a@, n as int));
}

/// Appends an instruction with two registers and a `#` immediate.
pub fn emit2i(out: &mut String, op: &str, a: &str, b: &str, n: i64)
    ensures
        final(out)@ == old(out)@ + ins2i(op@, a@, b@, n as int),
{
    proof {
        reveal(ins2i);
    }
    out.append("    ");
    out.append(op);
    out.append(" ");
    out.append(a);
    out.append(", ");
    out.append(b);
    out.append(", #");
    push_int(out, n);
    out.append("\n");
    assert(out@ =~= old(out)@ + ins2i(op@, a@, b@, n as int));
}

/// Appends a load or store at a `#` offset from a base register.
pub fn emit_mem(out: &mut String, op: &str, r: &str, base: &str, off: i32)
    ensures
        final(out)@ == old(out)@ + mem_line(op@, r@, base@, off as int),
{
    proof {
        reveal(mem_line);
    }
    out.append("    ");
    out.append(op);
    out.append(" ");
    out.append(r);
    out.append(", [");
    out.append(base);
    out.append(", #");
    push_int(out, off as i64);
    out.append("]\n");
    assert(out@ =~= old(out)@ + mem_line(op@, r@, base@, off as int));
}

/// Appends an instruction with one register and a bare immediate.
pub fn emit1n(out: &mut String, op: &str, a: &str, n: i64)
    ensures
        final(out)@ == old(out)@ + ins1n(op@, a@, n as int),
{
    proof {
        reveal(ins1n);
    }
    out.append("    ");
    out.append(op);
    out.append(" ");
    out.append(a);
    out.append(", ");
    push_int(out, n);
    out.append("\n");
    assert(out@ =~= old(out)@ + ins1n(op@, a@, n as int));
}

} // verus!
