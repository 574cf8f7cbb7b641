//! What Thumb-2 code of programs does.

use vstd::prelude::*;
use crate::ast::{Assignee, Expr, IfStmt, Stmt, TopLevel};
use crate::cstar::raw::emitter::{
    arm_end, Arms, cond_fw, elif_fw, Fw, if_fw, main_fw, stmt_fw, stmts_fw, var_fw,
};

verus! {

// ---------------------------------------------------------------------------
// Registers of variables
// ---------------------------------------------------------------------------

/// The variables are in the registers `r4` to `r7`, given in turn; while there
/// are no more than four of them, each has one of its own.
pub open spec fn apart(st: Fw) -> bool {
    let n = st.regs.dom().len();
    &&& st.regs.dom().finite()
    &&& st.next == 4 + n % 4
    &&& forall|a: Seq<char>| #[trigger] st.regs.contains_key(a) ==> 4 <= st.regs[a] <= 7
    &&& n <= 4 ==> forall|a: Seq<char>| #[trigger] st.regs.contains_key(a) ==> st.regs[a] < 4 + n
    &&& n <= 4 ==> forall|a: Seq<char>, b: Seq<char>|
        #![trigger st.regs.contains_key(a), st.regs.contains_key(b)]
        st.regs.contains_key(a) && st.regs.contains_key(b) && st.regs[a] == st.regs[b] ==> a == b
}

/// The variables of `a` are in the same registers in `b`.
pub open spec fn keeps(a: Fw, b: Fw) -> bool {
    forall|n: Seq<char>| #[trigger]
        a.regs.contains_key(n) ==> b.regs.contains_key(n) && b.regs[n] == a.regs[n]
}

/// Where variables are apart before, they are behind, and none has moved.
spec fn good(a: Fw, b: Fw) -> bool {
    &&& apart(a) ==> apart(b)
    &&& keeps(a, b)
}

proof fn lemma_var(st: Fw, n: Seq<char>)
    ensures
        good(st, var_fw(st, n)),
        var_fw(st, n).regs.contains_key(n),
{
    let b = var_fw(st, n);
    if apart(st) && !st.regs.contains_key(n) {
        let m = st.regs.dom().len();
        assert(b.regs.dom() =~= st.regs.dom().insert(n));
        assert(b.regs.dom().len() == m + 1);
        assert forall|a: Seq<char>| #[trigger] b.regs.contains_key(a) implies 4 <= b.regs[a] <= 7
            && (m + 1 <= 4 ==> b.regs[a] < 4 + m + 1) by {
            if a != n {
                assert(st.regs.contains_key(a));
            }
        }
        assert forall|x: Seq<char>, y: Seq<char>|
            #![trigger b.regs.contains_key(x), b.regs.contains_key(y)]
            m + 1 <= 4 && b.regs.contains_key(x) && b.regs.contains_key(y) && b.regs[x]
                == b.regs[y] implies x == y by {
            if x != n {
                assert(st.regs.contains_key(x));
            }
            if y != n {
                assert(st.regs.contains_key(y));
            }
        }
    }
}

proof fn lemma_stmt(st: Fw, s: Stmt)
    ensures
        good(st, stmt_fw(st, s)),
    decreases s,
{
    match s {
        Stmt::Assign(a) => {
            if a.targets@.len() > 0 {
                match a.targets@[0] {
                    Assignee::Identifier(id) => {
                        lemma_var(st, id.name@);
                    },
                    _ => {},
                }
            }
        },
        Stmt::While(w) => {
            lemma_stmts(cond_fw(st, w.condition), w.body@, w.body@.len());
        },
        Stmt::If(i) => {
            lemma_if(st, i);
        },
        _ => {},
    }
}

proof fn lemma_stmts(st: Fw, ss: Seq<Stmt>, k: nat)
    ensures
        good(st, stmts_fw(st, ss, k)),
    decreases ss, k,
{
    if k > 0 && k <= ss.len() {
        lemma_stmts(st, ss, (k - 1) as nat);
        lemma_stmt(stmts_fw(st, ss, (k - 1) as nat), ss[k - 1]);
    }
}

proof fn lemma_elif(a: Arms, cs: Seq<(Expr, Vec<Stmt>)>, k: nat)
    ensures
        good(a.st, elif_fw(a, cs, k).st),
    decreases cs, k,
{
    if k > 0 && k <= cs.len() {
        lemma_elif(a, cs, (k - 1) as nat);
        let p = arm_end(elif_fw(a, cs, (k - 1) as nat));
        lemma_stmts(cond_fw(p.st, cs[k - 1].0), cs[k - 1].1@, cs[k - 1].1@.len());
    }
}

proof fn lemma_if(st: Fw, i: IfStmt)
    ensures
        good(st, if_fw(st, i)),
    decreases i,
{
    let s1 = cond_fw(st, i.condition);
    lemma_stmts(s1, i.then_body@, i.then_body@.len());
    let first = Arms {
        st: stmts_fw(s1, i.then_body@, i.then_body@.len()),
        pending: s1.code.len() - 4,
        ends: Seq::empty(),
    };
    lemma_elif(first, i.elif_chain@, i.elif_chain@.len());
    let a = elif_fw(first, i.elif_chain@, i.elif_chain@.len());
    match i.else_body {
        Some(b) => {
            lemma_stmts(arm_end(a).st, b@, b@.len());
        },
        None => {},
    }
}

/// Different variables have different registers, all of them `r4` to `r7`, while
/// there are no more than four variables, and no statement moves a variable: so an
/// assignment to one leaves the others alone.
pub proof fn law_variables_have_their_own_registers(st: Fw, s: Stmt)
    requires
        apart(st),
    ensures
        apart(stmt_fw(st, s)),
        keeps(st, stmt_fw(st, s)),
{
    lemma_stmt(st, s);
}

/// The variables of a program have registers of their own, while there are no
/// more than four.
pub proof fn law_programs_keep_variables_apart(ds: Seq<TopLevel>, i: int)
    ensures
        apart(main_fw(Fw { code: Seq::empty(), regs: Map::empty(), next: 4 }, ds, i)),
    decreases ds.len() - i,
{
    let st = Fw { code: Seq::empty(), regs: Map::empty(), next: 4 };
    assert(st.regs.dom() =~= Set::<Seq<char>>::empty());
    assert(apart(st));
    if 0 <= i < ds.len() {
        match ds[i] {
            TopLevel::FnDef(f) => {
                lemma_stmts(st, f.body@, f.body@.len());
            },
            TopLevel::Statement(s) => {
                lemma_stmt(st, s);
            },
            _ => {},
        }
        law_programs_keep_variables_apart(ds, i + 1);
    }
}

} // verus!
