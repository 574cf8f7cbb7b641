//! What statements mean.
//!
//! Statements are run on the values of their variables. The meaning of
//! expressions is a parameter, since words differ between processors.

use vstd::prelude::*;
use crate::ast::{AssignOp, Assignee, Expr, Stmt};
use crate::cstar::raw::common::VarLoc;
use crate::cstar::raw::model::lab;
use crate::text::{dec, lemma_dec_differs};

verus! {

/// The values of variables by their names.
pub type Vals = Map<Seq<char>, int>;

/// Where a statement leads: on to the next one, out of the loop, to the next pass
/// of the loop, or out of the function with a value.
pub enum Outcome {
    Next(Vals),
    Break(Vals),
    Continue(Vals),
    Return(int),
}

/// The expression is made of integers, truth values and variables.
pub open spec fn simple(e: Expr) -> bool
    decreases e,
{
    match e {
        Expr::Integer(_) | Expr::Bool(_) | Expr::Identifier(_) => true,
        Expr::Unary(u) => simple(*u.operand),
        Expr::Binary(b) => simple(*b.left) && simple(*b.right),
        Expr::Cast(k) => simple(*k.expr),
        _ => false,
    }
}

/// The statement is an assignment, a `return`, an expression, an `if` or a block
/// of such, on simple expressions; inside a loop also a `break` or `continue`.
pub open spec fn plain(s: Stmt, inside: bool) -> bool
    decreases s, 0nat,
{
    match s {
        Stmt::Assign(x) => x.targets@.len() == 1 && x.targets@[0] is Identifier && x.operator
            == AssignOp::Simple && simple(x.value),
        Stmt::Return(r) => r.values@.len() == 0 || (r.values@.len() == 1 && simple(r.values@[0])),
        Stmt::If(i) => {
            &&& simple(i.condition)
            &&& i.elif_chain@.len() == 0
            &&& all_plain(i.then_body@, i.then_body@.len(), inside)
            &&& match i.else_body {
                Some(b) => all_plain(b@, b@.len(), inside),
                None => true,
            }
        },
        Stmt::Break(b) => inside && b.label is None,
        Stmt::Continue(c) => inside && c.label is None,
        Stmt::Expr(e) => simple(e.expr),
        Stmt::UnsafeBlock(u) => all_plain(u.body@, u.body@.len(), inside),
        _ => false,
    }
}

/// The first `k` statements are plain.
pub open spec fn all_plain(ss: Seq<Stmt>, k: nat, inside: bool) -> bool
    decreases ss, k,
{
    if k == 0 || k > ss.len() {
        true
    } else {
        all_plain(ss, (k - 1) as nat, inside) && plain(ss[k - 1], inside)
    }
}

/// The number of `if`s in a statement.
pub open spec fn ifs(s: Stmt) -> nat
    decreases s, 0nat,
{
    match s {
        Stmt::If(i) => 1 + all_ifs(i.then_body@, i.then_body@.len()) + match i.else_body {
            Some(b) => all_ifs(b@, b@.len()),
            None => 0,
        },
        Stmt::UnsafeBlock(u) => all_ifs(u.body@, u.body@.len()),
        _ => 0,
    }
}

/// The number of `if`s in the first `k` statements.
pub open spec fn all_ifs(ss: Seq<Stmt>, k: nat) -> nat
    decreases ss, k,
{
    if k == 0 || k > ss.len() {
        0
    } else {
        all_ifs(ss, (k - 1) as nat) + ifs(ss[k - 1])
    }
}

/// What a plain statement does; none where an expression in it has no value.
pub open spec fn run_stmt(s: Stmt, vals: Vals, m: spec_fn(Expr, Vals) -> Option<int>) -> Option<
    Outcome,
>
    decreases s, 0nat,
{
    match s {
        Stmt::Assign(x) => match (x.targets@[0], m(x.value, vals)) {
            (Assignee::Identifier(id), Some(v)) => Some(Outcome::Next(vals.insert(id.name@, v))),
            _ => None,
        },
        Stmt::Return(r) => if r.values@.len() == 0 {
            Some(Outcome::Return(0))
        } else {
            match m(r.values@[0], vals) {
                Some(v) => Some(Outcome::Return(v)),
                None => None,
            }
        },
        Stmt::If(i) => match m(i.condition, vals) {
            Some(v) => if v != 0 {
                run(i.then_body@, i.then_body@.len(), vals, m)
            } else {
                match i.else_body {
                    Some(b) => run(b@, b@.len(), vals, m),
                    None => Some(Outcome::Next(vals)),
                }
            },
            None => None,
        },
        Stmt::Break(_) => Some(Outcome::Break(vals)),
        Stmt::Continue(_) => Some(Outcome::Continue(vals)),
        Stmt::Expr(e) => match m(e.expr, vals) {
            Some(_) => Some(Outcome::Next(vals)),
            None => None,
        },
        Stmt::UnsafeBlock(u) => run(u.body@, u.body@.len(), vals, m),
        _ => None,
    }
}

/// What the first `k` statements do.
pub open spec fn run(ss: Seq<Stmt>, k: nat, vals: Vals, m: spec_fn(Expr, Vals) -> Option<int>) -> Option<
    Outcome,
>
    decreases ss, k,
{
    if k == 0 || k > ss.len() {
        Some(Outcome::Next(vals))
    } else {
        match run(ss, (k - 1) as nat, vals, m) {
            Some(Outcome::Next(v)) => run_stmt(ss[k - 1], v, m),
            o => o,
        }
    }
}

/// What a loop over the first `k` elements of a list does: for each element its
/// value goes to the variable `n`, and the body is run.
pub open spec fn run_list(es: Seq<Expr>, k: nat, n: Seq<char>, body: Seq<Stmt>, vals: Vals, m: spec_fn(Expr, Vals) -> Option<int>) -> Option<Outcome>
    decreases k,
{
    if k == 0 || k > es.len() {
        Some(Outcome::Next(vals))
    } else {
        match run_list(es, (k - 1) as nat, n, body, vals, m) {
            Some(Outcome::Next(v)) => match m(es[k - 1], v) {
                Some(x) => run(body, body.len(), v.insert(n, x), m),
                None => None,
            },
            o => o,
        }
    }
}

/// The values that an outcome has.
pub open spec fn values(o: Outcome) -> Option<Vals> {
    match o {
        Outcome::Next(v) | Outcome::Break(v) | Outcome::Continue(v) => Some(v),
        Outcome::Return(_) => None,
    }
}

/// A variable that has a value keeps one.
pub proof fn lemma_stmt_keeps(s: Stmt, vals: Vals, m: spec_fn(Expr, Vals) -> Option<int>, n: Seq<char>)
    requires
        run_stmt(s, vals, m) is Some,
        vals.contains_key(n),
    ensures
        values(run_stmt(s, vals, m)->Some_0) matches Some(v) ==> v.contains_key(n),
    decreases s, 0nat,
{
    match s {
        Stmt::If(i) => {
            let v = m(i.condition, vals)->Some_0;
            if v != 0 {
                lemma_run_keeps(i.then_body@, i.then_body@.len(), vals, m, n);
            } else if i.else_body is Some {
                let b = i.else_body->Some_0;
                lemma_run_keeps(b@, b@.len(), vals, m, n);
            }
        },
        Stmt::UnsafeBlock(u) => {
            lemma_run_keeps(u.body@, u.body@.len(), vals, m, n);
        },
        _ => {},
    }
}

/// A variable that has a value keeps one.
pub proof fn lemma_run_keeps(ss: Seq<Stmt>, k: nat, vals: Vals, m: spec_fn(Expr, Vals) -> Option<int>, n: Seq<char>)
    requires
        run(ss, k, vals, m) is Some,
        vals.contains_key(n),
    ensures
        values(run(ss, k, vals, m)->Some_0) matches Some(v) ==> v.contains_key(n),
    decreases ss, k,
{
    if k > 0 && k <= ss.len() {
        lemma_run_keeps(ss, (k - 1) as nat, vals, m, n);
        match run(ss, (k - 1) as nat, vals, m) {
            Some(Outcome::Next(v)) => {
                lemma_stmt_keeps(ss[k - 1], v, m, n);
            },
            _ => {},
        }
    }
}

// ---------------------------------------------------------------------------
// Labels
// ---------------------------------------------------------------------------

/// The label is not one of those of the `if`s with the numbers from `lo` to `hi`.
pub open spec fn outside(l: Seq<char>, lo: int, hi: int) -> bool {
    forall|n: usize|
        lo <= n < hi ==> l != #[trigger] lab(".Lelse_"@, n) && l != lab(".Lend_"@, n)
}

/// A label that is outside of a range is outside of what is in it.
pub proof fn lemma_narrow(l: Seq<char>, lo: int, hi: int, a: int, b: int)
    requires
        outside(l, lo, hi),
        lo <= a,
        b <= hi,
    ensures
        outside(l, a, b),
{
    assert forall|n: usize| a <= n < b implies l != #[trigger] lab(".Lelse_"@, n) && l != lab(
        ".Lend_"@,
        n,
    ) by {
        assert(lo <= n < hi);
        let first = lab(".Lelse_"@, n);
        assert(l != first);
    }
}

/// The label belongs to no `if`.
pub open spec fn elsewhere(l: Seq<char>) -> bool {
    outside(l, 0, usize::MAX + 1)
}

/// Labels with prefixes that differ at a place differ.
pub proof fn lemma_prefixes(p: Seq<char>, q: Seq<char>, i: int, m: usize, n: usize)
    requires
        0 <= i < p.len(),
        i < q.len(),
        p[i] != q[i],
    ensures
        lab(p, m) != lab(q, n),
{
    reveal(lab);
    assert(lab(p, m)[i] == p[i]);
    assert(lab(q, n)[i] == q[i]);
}

/// Labels with different numbers differ.
pub proof fn lemma_label_numbers(p: Seq<char>, m: usize, n: usize)
    requires
        m != n,
    ensures
        lab(p, m) != lab(p, n),
{
    reveal(lab);
    lemma_dec_differs(m as nat, n as nat);
    assert(lab(p, m).skip(p.len() as int) =~= dec(m as nat));
    assert(lab(p, n).skip(p.len() as int) =~= dec(n as nat));
}

/// The labels of an `if` differ from each other and from those of the others.
pub proof fn lemma_if_labels(id: usize)
    ensures
        lab(".Lelse_"@, id) != lab(".Lend_"@, id),
        outside(lab(".Lelse_"@, id), id + 1, usize::MAX + 1),
        outside(lab(".Lend_"@, id), id + 1, usize::MAX + 1),
{
    reveal_strlit(".Lelse_");
    reveal_strlit(".Lend_");
    assert forall|m: usize, n: usize| #[trigger] lab(".Lelse_"@, m) != #[trigger] lab(
        ".Lend_"@,
        n,
    ) by {
        lemma_prefixes(".Lelse_"@, ".Lend_"@, 3, m, n);
    }
    assert forall|n: usize| id + 1 <= n implies lab(".Lelse_"@, id) != #[trigger] lab(
        ".Lelse_"@,
        n,
    ) && lab(".Lend_"@, id) != lab(".Lend_"@, n) by {
        lemma_label_numbers(".Lelse_"@, id, n);
        lemma_label_numbers(".Lend_"@, id, n);
    }
    assert forall|n: usize| id + 1 <= n implies lab(".Lend_"@, id) != #[trigger] lab(".Lelse_"@, n)
        && lab(".Lelse_"@, id) != lab(".Lend_"@, n) by {
        assert(lab(".Lelse_"@, n) != lab(".Lend_"@, id));
        assert(lab(".Lelse_"@, id) != lab(".Lend_"@, n));
    }
}

/// A label with another prefix belongs to no `if`.
pub proof fn lemma_elsewhere(p: Seq<char>, id: usize)
    requires
        p.len() > 2,
        p[2] != 'e' || (p.len() > 3 && p[3] != 'l' && p[3] != 'n'),
    ensures
        elsewhere(lab(p, id)),
{
    reveal_strlit(".Lelse_");
    reveal_strlit(".Lend_");
    assert forall|n: usize| lab(p, id) != #[trigger] lab(".Lelse_"@, n) && lab(p, id) != lab(
        ".Lend_"@,
        n,
    ) by {
        if p[2] != 'e' {
            lemma_prefixes(p, ".Lelse_"@, 2, id, n);
            lemma_prefixes(p, ".Lend_"@, 2, id, n);
        } else {
            lemma_prefixes(p, ".Lelse_"@, 3, id, n);
            lemma_prefixes(p, ".Lend_"@, 3, id, n);
        }
    }
}

// ---------------------------------------------------------------------------
// Locations
// ---------------------------------------------------------------------------

/// No two variables have the same location, and the registers are among the first
/// `n`.
pub open spec fn apart(vars: Map<Seq<char>, VarLoc>, n: nat) -> bool {
    &&& forall|x: Seq<char>, y: Seq<char>|
        #![trigger vars.contains_key(x), vars.contains_key(y)]
        vars.contains_key(x) && vars.contains_key(y) && x != y ==> vars[x] != vars[y]
    &&& forall|x: Seq<char>| #[trigger]
        vars.contains_key(x) ==> (vars[x] matches VarLoc::Reg(i) ==> i < n)
}

/// The variables of `a` are in `b` at the same locations.
pub open spec fn within(a: Map<Seq<char>, VarLoc>, b: Map<Seq<char>, VarLoc>) -> bool {
    forall|n: Seq<char>| #[trigger]
        a.contains_key(n) ==> b.contains_key(n) && b[n] == a[n]
}

/// No variable is in the slot.
pub open spec fn no_slot(vars: Map<Seq<char>, VarLoc>, o: int) -> bool {
    forall|n: Seq<char>| #[trigger]
        vars.contains_key(n) ==> (vars[n] matches VarLoc::Stack(x) ==> x != o)
}

} // verus!
