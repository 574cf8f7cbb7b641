//! Laws on sizes, layouts, times and handlers.

use vstd::prelude::*;
use crate::ast::FieldDef;
use crate::cstar::annotations::{count_before, size_of};
use crate::cstar::hardware::{handler_of, irq_count, irq_handler, last_irq};
use crate::cstar::pir::{Node, Vector};
use crate::cstar::program::{node_cycles, total_cycles};
use crate::cstar::raw::common::{
    field_align, field_index, field_offset, field_size, field_start, round_up,
};
use crate::text::{
    begins, dec, ends, is_space, law_decimals_read_back, lemma_trimmed, without_suffix,
};

verus! {

// ---------------------------------------------------------------------------
// Sizes
// ---------------------------------------------------------------------------

/// Decimal digits are digits.
proof fn lemma_digits(n: nat)
    ensures
        dec(n).len() > 0,
        forall|i: int| 0 <= i < dec(n).len() ==> '0' <= #[trigger] dec(n)[i] && dec(n)[i] <= '9',
    decreases n,
{
    reveal(dec);
    if n >= 10 {
        lemma_digits(n / 10);
    }
}

/// The count in front of a unit.
proof fn lemma_count(n: u64, unit: Seq<char>)
    requires
        unit.len() > 0,
        unit.last() == 'B',
    ensures
        ends(dec(n as nat) + unit, unit),
        without_suffix(dec(n as nat) + unit, unit) == dec(n as nat),
        count_before(dec(n as nat) + unit, unit) == n,
{
    let d = dec(n as nat);
    let s = d + unit;
    lemma_digits(n as nat);
    law_decimals_read_back(n as nat);
    assert(s.subrange(d.len() as int, s.len() as int) =~= unit);
    assert(ends(s, unit));
    assert(s.take(s.len() - unit.len()) =~= d);
    assert(!ends(d, unit)) by {
        if ends(d, unit) {
            let k = d.len() - unit.len();
            assert(d.subrange(k, k + unit.len()).last() == d.last());
        }
    }
    assert(without_suffix(d, unit) == d);
    assert(!is_space(d[0]));
    lemma_trimmed(d);
}

/// A size is read back as its number of bytes: a count of `KB` is that many times
/// 1024 bytes, one of `MB` that many times 1024 times 1024, and one of `B`, or a
/// plain number, the bytes themselves.
pub proof fn law_sizes_are_read_in_their_unit(n: u64)
    ensures
        n * 1024 <= u64::MAX ==> size_of(dec(n as nat) + "KB"@) == n * 1024,
        n * 1024 * 1024 <= u64::MAX ==> size_of(dec(n as nat) + "MB"@) == n * 1024 * 1024,
        size_of(dec(n as nat) + "B"@) == n,
        size_of(dec(n as nat)) == n,
{
    let d = dec(n as nat);
    reveal_strlit("KB");
    reveal_strlit("MB");
    reveal_strlit("B");
    reveal_strlit("0x");
    reveal_strlit("0X");
    lemma_digits(n as nat);
    law_decimals_read_back(n as nat);
    lemma_count(n, "KB"@);
    lemma_count(n, "MB"@);
    lemma_count(n, "B"@);
    let m = d + "MB"@;
    assert(!ends(m, "KB"@)) by {
        if ends(m, "KB"@) {
            let k = m.len() - 2;
            assert(m.subrange(k, k + 2)[0] == m[k]);
            assert("KB"@[0] == 'K' && "MB"@[0] == 'M');
        }
    }
    let b = d + "B"@;
    assert(!ends(b, "KB"@) && !ends(b, "MB"@)) by {
        if b.len() >= 2 {
            let k = b.len() - 2;
            assert(b.subrange(k, k + 2)[0] == b[k]);
            assert(b[k] == d[k]);
            assert("KB"@[0] == 'K' && "MB"@[0] == 'M');
        }
    }
    lemma_unit_free(d, "KB"@);
    lemma_unit_free(d, "MB"@);
    lemma_unit_free(d, "B"@);
    assert(!is_space(d[0]));
    lemma_trimmed(d);
    assert(!begins(d, "0x"@) && !begins(d, "0X"@)) by {
        if d.len() >= 2 {
            assert(d.subrange(0, 2)[1] == d[1]);
            assert("0x"@[1] == 'x' && "0X"@[1] == 'X');
        }
    }
}

/// Digits end in no unit.
proof fn lemma_unit_free(d: Seq<char>, unit: Seq<char>)
    requires
        d.len() > 0,
        '0' <= d.last() && d.last() <= '9',
        unit.len() > 0,
        unit.last() == 'B',
    ensures
        !ends(d, unit),
{
    if ends(d, unit) {
        let k = d.len() - unit.len();
        assert(d.subrange(k, k + unit.len()).last() == d.last());
    }
}

// ---------------------------------------------------------------------------
// Layouts
// ---------------------------------------------------------------------------

/// A number that is rounded up is a multiple, not less than it was, and by less
/// than the unit more.
proof fn lemma_round_up(x: int, a: int)
    requires
        a > 0,
    ensures
        round_up(x, a) >= x,
        round_up(x, a) < x + a,
        round_up(x, a) % a == 0,
{
    if x % a != 0 {
        let q = x / a;
        assert(x == a * q + x % a) by {
            vstd::arithmetic::div_mod::lemma_fundamental_div_mod(x, a);
        }
        assert(x + (a - x % a) == a * (q + 1)) by (nonlinear_arith)
            requires
                x == a * q + x % a,
        ;
        vstd::arithmetic::div_mod::lemma_mod_multiples_basic(q + 1, a);
        assert(a * (q + 1) == (q + 1) * a) by (nonlinear_arith);
        vstd::arithmetic::div_mod::lemma_mod_bound(x, a);
    }
}

/// The fields of a struct do not overlap: each starts where or behind where the
/// one before it ends, with less room between them than its alignment, and at a
/// multiple of its alignment.
pub proof fn law_fields_do_not_overlap(fields: Seq<FieldDef>, align: int, i: int, j: int)
    requires
        align > 0,
        0 <= i < j < fields.len(),
    ensures
        field_start(fields, align, i) + field_size(fields[i]) <= field_start(fields, align, j),
        field_start(fields, align, j) % field_align(fields[j], align) == 0,
        j == i + 1 ==> field_start(fields, align, j) < field_start(fields, align, i) + field_size(
            fields[i],
        ) + field_align(fields[j], align),
    decreases j,
{
    lemma_round_up(
        field_start(fields, align, j - 1) + field_size(fields[j - 1]),
        field_align(fields[j], align),
    );
    if i < j - 1 {
        law_fields_do_not_overlap(fields, align, i, j - 1);
    }
}

/// The offset of a field is where the first field with its name starts.
pub proof fn law_offsets_are_of_the_named_field(fields: Seq<FieldDef>, align: int, name: Seq<char>, k: int)
    requires
        0 <= k < fields.len(),
        fields[k].name.name@ == name,
        forall|i: int| 0 <= i < k ==> (#[trigger] fields[i]).name.name@ != name,
    ensures
        field_offset(fields, align, name) == field_start(fields, align, k),
{
    lemma_field_index(fields, name, k, 0);
}

/// The first field with a name.
proof fn lemma_field_index(fields: Seq<FieldDef>, name: Seq<char>, k: int, i: int)
    requires
        0 <= i <= k < fields.len(),
        fields[k].name.name@ == name,
        forall|j: int| 0 <= j < k ==> (#[trigger] fields[j]).name.name@ != name,
    ensures
        field_index(fields, name, i) == Some(k),
    decreases k - i,
{
    if i < k {
        lemma_field_index(fields, name, k, i + 1);
    }
}

// ---------------------------------------------------------------------------
// Times
// ---------------------------------------------------------------------------

/// Every node takes time, so more nodes take more: the nodes of two pieces of code
/// take what the pieces take together, and a loop takes longer than any one pass
/// of its body.
pub proof fn law_times_add_up(a: Seq<Node>, b: Seq<Node>)
    ensures
        total_cycles(a + b, (a + b).len()) == total_cycles(a, a.len()) + total_cycles(b, b.len()),
        total_cycles(a, a.len()) >= a.len(),
        forall|label: Seq<char>|
            #[trigger] node_cycles((Node::Loop { label, body: a })) > total_cycles(a, a.len()),
        forall|label: Seq<char>, condition: Seq<char>|
            #[trigger] node_cycles((Node::WhileLoop { label, condition, body: a })) > total_cycles(
                a,
                a.len(),
            ),
{
    lemma_times(a, b, b.len());
    lemma_times_grow(a, a.len());
}

/// The times of two pieces of code.
proof fn lemma_times(a: Seq<Node>, b: Seq<Node>, k: nat)
    requires
        k <= b.len(),
    ensures
        total_cycles(a + b, a.len() + k) == total_cycles(a, a.len()) + total_cycles(b, k),
    decreases k,
{
    if k > 0 {
        lemma_times(a, b, (k - 1) as nat);
        assert((a + b)[a.len() + k - 1] == b[k - 1]);
    } else {
        lemma_times_front(a, b, a.len());
    }
}

/// The time of the first nodes.
proof fn lemma_times_front(a: Seq<Node>, b: Seq<Node>, k: nat)
    requires
        k <= a.len(),
    ensures
        total_cycles(a + b, k) == total_cycles(a, k),
    decreases k,
{
    if k > 0 {
        lemma_times_front(a, b, (k - 1) as nat);
        assert((a + b)[k - 1] == a[k - 1]);
    }
}

/// Every node takes time.
proof fn lemma_times_grow(a: Seq<Node>, k: nat)
    requires
        k <= a.len(),
    ensures
        total_cycles(a, k) >= k,
    decreases k,
{
    if k > 0 {
        lemma_times_grow(a, (k - 1) as nat);
        assert(node_cycles(a[k - 1]) >= 1);
    }
}

// ---------------------------------------------------------------------------
// Handlers
// ---------------------------------------------------------------------------

/// The vector of an interrupt is the handler of the first entry for it, and the
/// default handler where there is none; the table has a place for every interrupt
/// with an entry, and for sixteen at least.
pub proof fn law_interrupts_have_their_handlers(vs: Seq<Vector>, n: int, k: int)
    requires
        0 <= n,
        0 <= k <= vs.len(),
        forall|i: int| 0 <= i < k ==> !handles(#[trigger] vs[i], n),
        k < vs.len() ==> handles(vs[k], n),
    ensures
        irq_handler(vs, n, 0) == (if k < vs.len() {
            vs[k].handler
        } else {
            "_default_handler"@
        }),
        k < vs.len() ==> n < irq_count(vs),
        irq_count(vs) >= 16,
{
    lemma_irq_handler(vs, n, k, 0);
    if k < vs.len() {
        lemma_last_irq(vs, n, k, vs.len());
    }
}

/// The entry is for interrupt `n`.
pub open spec fn handles(v: Vector, n: int) -> bool {
    v.irq_number matches Some(k) && k == n
}

/// The handler of an interrupt.
proof fn lemma_irq_handler(vs: Seq<Vector>, n: int, k: int, i: int)
    requires
        0 <= i <= k <= vs.len(),
        forall|j: int| 0 <= j < k ==> !handles(#[trigger] vs[j], n),
        k < vs.len() ==> handles(vs[k], n),
    ensures
        irq_handler(vs, n, i) == (if k < vs.len() {
            vs[k].handler
        } else {
            "_default_handler"@
        }),
    decreases k - i,
{
    if i < k {
        assert(!handles(vs[i], n));
        lemma_irq_handler(vs, n, k, i + 1);
    }
}

/// The greatest interrupt is not less than any.
proof fn lemma_last_irq(vs: Seq<Vector>, n: int, k: int, m: nat)
    requires
        0 <= k < m <= vs.len(),
        handles(vs[k], n),
    ensures
        last_irq(vs, m) >= n,
    decreases m,
{
    if k < m - 1 {
        lemma_last_irq(vs, n, k, (m - 1) as nat);
    }
}

/// The handler of an exception is that of the first entry with its name, and the
/// default handler where there is none.
pub proof fn law_exceptions_have_their_handlers(vs: Seq<Vector>, name: Seq<char>, k: int, i: int)
    requires
        0 <= i <= k <= vs.len(),
        forall|j: int| 0 <= j < k ==> (#[trigger] vs[j]).name != name,
        k < vs.len() ==> vs[k].name == name,
    ensures
        handler_of(vs, name, i) == (if k < vs.len() {
            vs[k].handler
        } else {
            "_default_handler"@
        }),
    decreases k - i,
{
    if i < k {
        law_exceptions_have_their_handlers(vs, name, k, i + 1);
    }
}

} // verus!
