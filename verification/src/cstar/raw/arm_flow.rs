//! What the AArch64 and ARM32 text of statements does.
//!
//! The laws say that the text of statements does what the statements mean: values
//! are where they belong, and control goes where it should.

use vstd::prelude::*;
use crate::ast::{Expr, ForInStmt, ForRangeStmt, IfStmt, LoopStmt, RangeExpr, Stmt, WhileStmt};
use crate::cstar::raw::common::{bump, down8, VarLoc};
use crate::cstar::raw::flow::{
    all_ifs, all_plain, apart, elsewhere, ifs, lemma_elsewhere, lemma_if_labels, lemma_narrow,
    lemma_prefixes, lemma_run_keeps, no_slot, Outcome, outside, plain, run, run_list, run_stmt,
    simple, Vals, within,
};
use crate::cstar::raw::arm_laws::law_variables_keep_their_places;
use crate::cstar::raw::arm_model::{
    break_text, Code, cond_code, continue_text, expr_code, for_in_code, for_range_code, fp, if_code,
    load_var, place_var, plain_cond, pool_len, pool_reg, range_ctx, range_entry, range_head,
    range_loop_code, range_tail, ret, return_jump, step_code, stmt_code, stmts_code, store_var,
    store_var_unless, tmp, unrolled, while_code, zero_ret,
};
use crate::cstar::raw::arm_run::{
    Cpu, held, holds, Ins, ins_text, leads, lemma_branches, lemma_chain, lemma_cond, lemma_expr,
    lemma_free, lemma_holds, lemma_leads_self, lemma_line, lemma_meaning_fits, lemma_moves,
    lemma_operations, lemma_plain_cond, lemma_pool, lemma_set, lemma_wrapped_fits, meaning,
    same_register, same_store, width, words,
};
use crate::cstar::raw::lines::{ins1, ins1i, ins2, ins3, label_line, mem_line};
use crate::cstar::raw::model::{Ctx, Env, lab};
use crate::meaning::{fits, wrapped};
use crate::text::{dec, int_dec};

verus! {

/// The meaning of expressions.
pub open spec fn meanings(a64: bool) -> spec_fn(Expr, Vals) -> Option<int> {
    |e: Expr, vals: Vals| meaning(e, vals, width(a64))
}

/// The variables hold their values.
pub open spec fn ready(env: Env, c: Cpu, vars: Map<Seq<char>, VarLoc>, vals: Vals) -> bool {
    c.a64 == env.a64() && holds(c, vars, vals) && words(vals, width(env.a64()))
}

/// Control has got to where the outcome leads, and the variables hold its values.
/// Slots of the frame that belong to no variable, and the stack, are as they were.
pub open spec fn reached(env: Env, ctx: Ctx, st: Code, last: Map<Seq<char>, VarLoc>, c: Cpu, d: Cpu, o: Outcome) -> bool {
    &&& c.stack == d.stack
    &&& forall|k: int| #[trigger] no_slot(last, k) ==> same_slot(c, d, k)
    &&& match o {
        Outcome::Next(v) => d.at is None && ready(env, d, st.vars, v),
        Outcome::Break(v) => ctx.loops.len() > 0 && d.at == Some(ctx.loops.last().1) && ready(env, d, st.vars, v),
        Outcome::Continue(v) => ctx.loops.len() > 0 && d.at == Some(ctx.loops.last().0) && ready(env, d, st.vars, v),
        Outcome::Return(x) => d.at == st.epi && d.regs.contains_key(ret(env.a64())) && d.regs[ret(env.a64())] == x,
    }
}

/// The slot holds the same in both states.
pub open spec fn same_slot(c: Cpu, d: Cpu, o: int) -> bool {
    &&& c.slots.contains_key(o) == d.slots.contains_key(o)
    &&& c.slots.contains_key(o) ==> c.slots[o] == d.slots[o]
}

/// The places that jumps of a statement go to belong to no `if`.
pub open spec fn exits(ctx: Ctx, st: Code) -> bool {
    &&& st.epi is Some
    &&& elsewhere(st.epi->Some_0)
    &&& ctx.loops.len() > 0 ==> elsewhere(ctx.loops.last().0) && elsewhere(ctx.loops.last().1)
}

/// A variable gets a place.
proof fn lemma_placed(env: Env, st: Code, n: Seq<char>)
    ensures
        ({
            let (loc, b) = place_var(env.a64(), st, n);
            &&& b.code == st.code && b.labels == st.labels && b.epi == st.epi
            &&& b.vars.contains_key(n) && b.vars[n] == loc
            &&& within(st.vars, b.vars)
        }),
{
    reveal(place_var);
}

/// A value that is stored to a variable.
proof fn lemma_store(env: Env, vars: Map<Seq<char>, VarLoc>, last: Map<Seq<char>, VarLoc>, n: Seq<char>, vals: Vals, from: Seq<char>, out: Seq<char>, c0: Cpu, c: Cpu) -> (d: Cpu)
    requires
        leads(from, out, c0, c),
        vars.contains_key(n),
        within(vars, last),
        apart(last, pool_len(env.a64()) as nat),
        c.at is None ==> ready(env, c, vars, vals) && c.regs.contains_key(ret(env.a64())) && fits(c.regs[ret(env.a64())], width(env.a64())),
    ensures
        leads(from, store_var(out, env.a64(), vars[n], ret(env.a64())), c0, d),
        c.at is Some ==> d == c,
        c.at is None ==> {
            &&& d.at is None
            &&& d.stack == c.stack
            &&& ready(env, d, vars, vals.insert(n, c.regs[ret(env.a64())]))
            &&& forall|k: int| #[trigger] no_slot(last, k) ==> same_slot(c, d, k)
        },
{
    reveal(store_var);
    reveal(mem_line);
    reveal(ins2);
    lemma_moves();
    lemma_free(env.a64());
    lemma_pool(env.a64());
    let loc = vars[n];
    assert(last.contains_key(n) && last[n] == loc);
    let i = match loc {
        VarLoc::Reg(i) => Ins::Two("mov"@, pool_reg(env.a64(), i as int), ret(env.a64())),
        VarLoc::Stack(o) => Ins::Store(ret(env.a64()), fp(env.a64()), o as int),
    };
    let d = lemma_line(from, out, c0, c, i);
    if c.at is None {
        let w = vals.insert(n, c.regs[ret(env.a64())]);
        assert forall|x: Seq<char>| #[trigger] w.contains_key(x) implies vars.contains_key(x)
            && held(d, vars[x]) == Some(w[x]) by {
            if x != n {
                assert(vals.contains_key(x));
                assert(last.contains_key(x) && last[x] == vars[x]);
                assert(vars[x] != loc);
            }
        }
        assert forall|k: int| #[trigger] no_slot(last, k) implies same_slot(c, d, k) by {
            assert(last.contains_key(n));
        }
    }
    d
}

/// What leaves the variables alone keeps them ready.
proof fn lemma_ready(env: Env, c: Cpu, d: Cpu, vars: Map<Seq<char>, VarLoc>, vals: Vals)
    requires
        same_store(c, d),
        ready(env, c, vars, vals),
    ensures
        ready(env, d, vars, vals),
{
    lemma_holds(c, d, vars, vals);
}

/// More variables with places.
proof fn lemma_more(env: Env, c: Cpu, a: Map<Seq<char>, VarLoc>, b: Map<Seq<char>, VarLoc>, vals: Vals)
    requires
        ready(env, c, a, vals),
        within(a, b),
    ensures
        ready(env, c, b, vals),
{
    assert forall|n: Seq<char>| #[trigger] vals.contains_key(n) implies b.contains_key(n) && held(
        c,
        b[n],
    ) == Some(vals[n]) by {
        assert(a.contains_key(n));
    }
}

/// Statements keep the places of variables.
proof fn lemma_within(env: Env, ctx: Ctx, st: Code, ss: Seq<Stmt>, k: nat)
    ensures
        within(st.vars, stmts_code(env, ctx, st, ss, k).vars),
    decreases k,
{
    if k > 0 && k <= ss.len() {
        let b = stmts_code(env, ctx, st, ss, (k - 1) as nat);
        lemma_within(env, ctx, st, ss, (k - 1) as nat);
        law_variables_keep_their_places(env, ctx, b, ss[k - 1]);
        let e = stmt_code(env, ctx, b, ss[k - 1]);
        assert forall|n: Seq<char>| #[trigger] st.vars.contains_key(n) implies e.vars.contains_key(n)
            && e.vars[n] == st.vars[n] by {
            assert(b.vars.contains_key(n));
        }
    }
}

/// What is within what is within.
proof fn lemma_in(a: Map<Seq<char>, VarLoc>, b: Map<Seq<char>, VarLoc>, c: Map<Seq<char>, VarLoc>)
    requires
        within(a, b),
        within(b, c),
    ensures
        within(a, c),
{
    assert forall|n: Seq<char>| #[trigger] a.contains_key(n) implies c.contains_key(n) && c[n]
        == a[n] by {
        assert(b.contains_key(n));
    }
}

/// The text of a statement does what the statement means.
proof fn lemma_stmt(env: Env, ctx: Ctx, st: Code, s: Stmt, vals: Vals, last: Map<Seq<char>, VarLoc>, from: Seq<char>, c0: Cpu, c: Cpu) -> (d: Cpu)
    requires
        leads(from, st.code, c0, c),
        plain(s, ctx.loops.len() > 0),
        exits(ctx, st),
        st.labels + ifs(s) <= usize::MAX,
        apart(last, pool_len(env.a64()) as nat),
        within(stmt_code(env, ctx, st, s).vars, last),
        c.at matches Some(l) ==> outside(l, st.labels as int, st.labels + ifs(s)),
        c.at is None ==> ready(env, c, st.vars, vals) && run_stmt(s, vals, meanings(env.a64())) is Some,
    ensures
        ({
            let b = stmt_code(env, ctx, st, s);
            &&& b.labels == st.labels + ifs(s)
            &&& b.epi == st.epi
            &&& leads(from, b.code, c0, d)
            &&& c.at is Some ==> d == c
            &&& c.at is None ==> reached(
                env,
                ctx,
                b,
                last,
                c,
                d,
                run_stmt(s, vals, meanings(env.a64()))->Some_0,
            )
        }),
    decreases s, 0nat,
{
    lemma_free(env.a64());
    lemma_pool(env.a64());
    reveal(store_var_unless);
    let b = stmt_code(env, ctx, st, s);
    match s {
        Stmt::Assign(x) => {
            let n = x.targets@[0]->Identifier_0.name@;
            let s1 = (place_var(env.a64(), st, n)).1;
            lemma_placed(env, st, n);
            if c.at is None {
                lemma_more(env, c, st.vars, s1.vars, vals);
            }
            let d1 = lemma_expr(env, ctx, s1, x.value, ret(env.a64()), vals, from, c0, c);
            let s2 = expr_code(env, ctx, s1, x.value, ret(env.a64()));
            if c.at is None {
                lemma_ready(env, c, d1, s1.vars, vals);
                lemma_meaning_fits(x.value, vals, env.a64());
            }
            lemma_store(env, s1.vars, last, n, vals, from, s2.code, c0, d1)
        },
        Stmt::Return(r) => {
            reveal(return_jump);
            reveal(ins1);
            lemma_branches();
            if r.values@.len() > 0 {
                let d1 = lemma_expr(env, ctx, st, r.values@[0], ret(env.a64()), vals, from, c0, c);
                let s1 = expr_code(env, ctx, st, r.values@[0], ret(env.a64()));
                lemma_line(from, s1.code, c0, d1, Ins::Branch("b"@, st.epi->Some_0))
            } else {
                let d1 = lemma_zero(env, from, st.code, c0, c);
                lemma_line(from, st.code + zero_ret(env.a64()), c0, d1, Ins::Branch("b"@, st.epi->Some_0))
            }
        },
        Stmt::If(i) => lemma_if(env, ctx, st, i, vals, last, from, c0, c),
        Stmt::Break(k) => {
            reveal(break_text);
            reveal(ins1);
            lemma_branches();
            lemma_line(from, st.code, c0, c, Ins::Branch("b"@, ctx.loops.last().1))
        },
        Stmt::Continue(k) => {
            reveal(continue_text);
            reveal(ins1);
            lemma_branches();
            lemma_line(from, st.code, c0, c, Ins::Branch("b"@, ctx.loops.last().0))
        },
        Stmt::Expr(e) => {
            let d = lemma_expr(env, ctx, st, e.expr, ret(env.a64()), vals, from, c0, c);
            if c.at is None {
                lemma_ready(env, c, d, st.vars, vals);
            }
            d
        },
        Stmt::UnsafeBlock(u) => lemma_stmts(
            env,
            ctx,
            st,
            u.body@,
            u.body@.len(),
            vals,
            last,
            from,
            c0,
            c,
        ),
        _ => c,
    }
}

/// Zero in the return register.
proof fn lemma_zero(env: Env, from: Seq<char>, out: Seq<char>, c0: Cpu, c: Cpu) -> (d: Cpu)
    requires
        leads(from, out, c0, c),
    ensures
        leads(from, out + zero_ret(env.a64()), c0, d),
        c.at is Some ==> d == c,
        c.at is None ==> d == c.set(ret(env.a64()), 0),
{
    lemma_moves();
    lemma_zero_text(env.a64());
    lemma_line(from, out, c0, c, Ins::Imm("mov"@, ret(env.a64()), 0))
}

/// The text that puts zero into the return register.
proof fn lemma_zero_text(a64: bool)
    ensures
        zero_ret(a64) == ins_text(Ins::Imm("mov"@, ret(a64), 0)),
{
    reveal(zero_ret);
    reveal(ret);
    reveal(int_dec);
    reveal_with_fuel(dec, 2);
    reveal_strlit("    mov x0, #0\n");
    reveal_strlit("    mov r0, #0\n");
    reveal_strlit("    ");
    reveal_strlit("mov");
    reveal_strlit(" ");
    reveal_strlit("x0");
    reveal_strlit("r0");
    reveal_strlit(", #");
    reveal_strlit("\n");
    assert(zero_ret(a64) =~= ins_text(Ins::Imm("mov"@, ret(a64), 0)));
}

/// The text that puts one into the return register.
proof fn lemma_one_text(a64: bool)
    ensures
        (if a64 {
            "    mov x0, #1\n"@
        } else {
            "    mov r0, #1\n"@
        }) == ins_text(Ins::Imm("mov"@, ret(a64), 1)),
{
    reveal(ret);
    reveal(int_dec);
    reveal_with_fuel(dec, 2);
    reveal_strlit("    mov x0, #1\n");
    reveal_strlit("    mov r0, #1\n");
    reveal_strlit("    ");
    reveal_strlit("mov");
    reveal_strlit(" ");
    reveal_strlit("x0");
    reveal_strlit("r0");
    reveal_strlit(", #");
    reveal_strlit("\n");
    assert((if a64 {
            "    mov x0, #1\n"@
        } else {
            "    mov r0, #1\n"@
        }) =~= ins_text(Ins::Imm("mov"@, ret(a64), 1)));
}

/// The text of statements does what they mean.
proof fn lemma_stmts(env: Env, ctx: Ctx, st: Code, ss: Seq<Stmt>, k: nat, vals: Vals, last: Map<Seq<char>, VarLoc>, from: Seq<char>, c0: Cpu, c: Cpu) -> (d: Cpu)
    requires
        leads(from, st.code, c0, c),
        all_plain(ss, k, ctx.loops.len() > 0),
        exits(ctx, st),
        st.labels + all_ifs(ss, k) <= usize::MAX,
        apart(last, pool_len(env.a64()) as nat),
        within(stmts_code(env, ctx, st, ss, k).vars, last),
        c.at matches Some(l) ==> outside(l, st.labels as int, st.labels + all_ifs(ss, k)),
        c.at is None ==> ready(env, c, st.vars, vals) && run(ss, k, vals, meanings(env.a64())) is Some,
    ensures
        ({
            let b = stmts_code(env, ctx, st, ss, k);
            &&& b.labels == st.labels + all_ifs(ss, k)
            &&& b.epi == st.epi
            &&& leads(from, b.code, c0, d)
            &&& c.at is Some ==> d == c
            &&& c.at is None ==> reached(
                env,
                ctx,
                b,
                last,
                c,
                d,
                run(ss, k, vals, meanings(env.a64()))->Some_0,
            )
        }),
    decreases ss, k,
{
    if k == 0 || k > ss.len() {
        c
    } else {
        let s = ss[k - 1];
        let j = (k - 1) as nat;
        let mid = stmts_code(env, ctx, st, ss, j);
        assert(all_ifs(ss, k) == all_ifs(ss, j) + ifs(s));
        let b = stmts_code(env, ctx, st, ss, k);
        law_variables_keep_their_places(env, ctx, mid, s);
        lemma_in(mid.vars, b.vars, last);
        let (lo, hi) = (st.labels as int, st.labels + all_ifs(ss, k));
        let split = st.labels + all_ifs(ss, j);
        if c.at is Some {
            lemma_narrow(c.at->Some_0, lo, hi, lo, split);
            lemma_narrow(c.at->Some_0, lo, hi, split, hi);
        }
        let d1 = lemma_stmts(env, ctx, st, ss, j, vals, last, from, c0, c);
        if c.at is None && d1.at is Some {
            lemma_narrow(d1.at->Some_0, 0, usize::MAX + 1, split, hi);
        }
        let w = match run(ss, j, vals, meanings(env.a64())) {
            Some(Outcome::Next(v)) => v,
            _ => vals,
        };
        let d2 = lemma_stmt(env, ctx, mid, s, w, last, from, c0, d1);
        if c.at is None {
            match run(ss, j, vals, meanings(env.a64()))->Some_0 {
                Outcome::Next(v) => {
                    assert forall|o: int| #[trigger] no_slot(last, o) implies same_slot(
                        c,
                        d2,
                        o,
                    ) by {
                        assert(same_slot(c, d1, o));
                        assert(same_slot(d1, d2, o));
                    }
                },
                Outcome::Break(v) => {
                    lemma_more(env, d2, mid.vars, b.vars, v);
                },
                Outcome::Continue(v) => {
                    lemma_more(env, d2, mid.vars, b.vars, v);
                },
                Outcome::Return(_) => {},
            }
        }
        d2
    }
}

/// The text of an `if` does what the `if` means.
proof fn lemma_if(env: Env, ctx: Ctx, st: Code, i: IfStmt, vals: Vals, last: Map<Seq<char>, VarLoc>, from: Seq<char>, c0: Cpu, c: Cpu) -> (d: Cpu)
    requires
        leads(from, st.code, c0, c),
        plain(Stmt::If(i), ctx.loops.len() > 0),
        exits(ctx, st),
        st.labels + ifs(Stmt::If(i)) <= usize::MAX,
        apart(last, pool_len(env.a64()) as nat),
        within(if_code(env, ctx, st, i).vars, last),
        c.at matches Some(l) ==> outside(l, st.labels as int, st.labels + ifs(Stmt::If(i))),
        c.at is None ==> ready(env, c, st.vars, vals) && run_stmt(Stmt::If(i), vals, meanings(env.a64())) is Some,
    ensures
        ({
            let b = if_code(env, ctx, st, i);
            &&& b.labels == st.labels + ifs(Stmt::If(i))
            &&& b.epi == st.epi
            &&& leads(from, b.code, c0, d)
            &&& c.at is Some ==> d == c
            &&& c.at is None ==> reached(
                env,
                ctx,
                b,
                last,
                c,
                d,
                run_stmt(Stmt::If(i), vals, meanings(env.a64()))->Some_0,
            )
        }),
    decreases i, 0nat,
{
    let id = st.labels;
    let skip = lab(".Lelse_"@, id);
    let end = lab(".Lend_"@, id);
    lemma_if_labels(id);
    let s0 = st.labelled();
    let s1 = cond_code(env, ctx, s0, i.condition, skip);
    let t = i.then_body@;
    let n = t.len();
    let s2 = stmts_code(env, ctx, s1, t, n);
    let s3 = s2.with(s2.code + ins1("b"@, end) + label_line(skip));
    let s4 = match i.else_body {
        Some(b) => stmts_code(env, ctx, s3, b@, b@.len()),
        None => s3,
    };
    let s5 = if_code(env, ctx, st, i);
    let d1 = lemma_cond(env, ctx, s0, i.condition, skip, vals, from, c0, c);
    let whole = ifs(Stmt::If(i));
    let split = id + 1 + all_ifs(t, n);
    let top = usize::MAX + 1;
    if c.at is Some {
        let l = c.at->Some_0;
        assert(l != skip && l != end);
        lemma_narrow(l, id as int, id + whole, id + 1, split);
        lemma_narrow(l, id as int, id + whole, split, id + whole);
    }
    lemma_narrow(skip, id + 1, top, id + 1, split);
    lemma_narrow(end, id + 1, top, split, id + whole);
    if i.else_body is Some {
        let b = i.else_body->Some_0@;
        lemma_within(env, ctx, s3, b, b.len());
    }
    lemma_in(s2.vars, s4.vars, last);
    lemma_within(env, ctx, s1, t, n);
    let yes = c.at is None && meaning(i.condition, vals, width(env.a64()))->Some_0 != 0;
    if c.at is None {
        lemma_ready(env, c, d1, st.vars, vals);
    }
    let d2 = lemma_stmts(env, ctx, s1, t, n, vals, last, from, c0, d1);
    let d4 = lemma_turn(from, s2.code, c0, d2, end, skip);
    if yes && d2.at is Some {
        lemma_narrow(d2.at->Some_0, 0, top, split, id + whole);
        assert(d2.at->Some_0 != skip && d2.at->Some_0 != end);
    }
    if c.at is None && !yes {
        lemma_more(env, d4, st.vars, s3.vars, vals);
    }
    let d5 = match i.else_body {
        Some(b) => lemma_stmts(env, ctx, s3, b@, b@.len(), vals, last, from, c0, d4),
        None => d4,
    };
    let d6 = lemma_end(from, s4.code, c0, d5, end);
    if yes {
        lemma_taken(env, ctx, s2, s5, last, c, d1, d2, d6, run(t, n, vals, meanings(env.a64()))->Some_0);
    } else if c.at is None {
        match i.else_body {
            Some(b) => {
                lemma_taken(
                    env,
                    ctx,
                    s4,
                    s5,
                    last,
                    c,
                    d4,
                    d5,
                    d6,
                    run(b@, b@.len(), vals, meanings(env.a64()))->Some_0,
                );
            },
            None => {},
        }
    }
    d6
}

/// The end of the first branch of an `if`, and the label of the second.
proof fn lemma_turn(from: Seq<char>, out: Seq<char>, c0: Cpu, c: Cpu, end: Seq<char>, skip: Seq<char>) -> (d: Cpu)
    requires
        leads(from, out, c0, c),
        skip != end,
    ensures
        leads(from, out + ins1("b"@, end) + label_line(skip), c0, d),
        c.at is None ==> d == (Cpu { at: Some(end), ..c }),
        c.at == Some(skip) ==> d == (Cpu { at: None, ..c }),
        c.at is Some && c.at != Some(skip) ==> d == c,
{
    reveal(ins1);
    reveal(label_line);
    lemma_branches();
    let g = Ins::Branch("b"@, end);
    let d1 = lemma_line(from, out, c0, c, g);
    lemma_line(from, out + ins_text(g), c0, d1, Ins::Label(skip))
}

/// The label at the end.
proof fn lemma_end(from: Seq<char>, out: Seq<char>, c0: Cpu, c: Cpu, end: Seq<char>) -> (d: Cpu)
    requires
        leads(from, out, c0, c),
    ensures
        leads(from, out + label_line(end), c0, d),
        c.at is None ==> d == c,
        c.at == Some(end) ==> d == (Cpu { at: None, ..c }),
        c.at is Some && c.at != Some(end) ==> d == c,
{
    reveal(label_line);
    lemma_line(from, out, c0, c, Ins::Label(end))
}

/// The end of a branch of an `if`.
proof fn lemma_taken(env: Env, ctx: Ctx, a: Code, b: Code, last: Map<Seq<char>, VarLoc>, c: Cpu, d1: Cpu, d2: Cpu, d: Cpu, o: Outcome)
    requires
        reached(env, ctx, a, last, d1, d2, o),
        within(a.vars, b.vars),
        a.epi == b.epi,
        c.slots == d1.slots,
        c.stack == d1.stack,
        o is Next ==> d == (Cpu { at: None, ..d2 }),
        !(o is Next) ==> d == d2,
    ensures
        reached(env, ctx, b, last, c, d, o),
{
    assert forall|k: int| #[trigger] no_slot(last, k) implies same_slot(c, d, k) by {
        assert(same_slot(d1, d2, k));
    }
    match o {
        Outcome::Next(v) => {
            lemma_more(env, d, a.vars, b.vars, v);
        },
        Outcome::Break(v) => {
            lemma_more(env, d, a.vars, b.vars, v);
        },
        Outcome::Continue(v) => {
            lemma_more(env, d, a.vars, b.vars, v);
        },
        Outcome::Return(_) => {},
    }
}

/// The text of statements does what they mean: run from a state in which the
/// variables hold their values, it leads to where the statements lead, to the end
/// of the text, to the labels of the loop around them or to the end of the
/// function, with the values that they give the variables or the value that they
/// return. The variables have places of their own, and the numbers of labels do
/// not run out.
pub proof fn law_statements_do_what_they_mean(env: Env, ctx: Ctx, st: Code, ss: Seq<Stmt>, vals: Vals, c: Cpu)
    requires
        all_plain(ss, ss.len(), ctx.loops.len() > 0),
        exits(ctx, st),
        st.labels + all_ifs(ss, ss.len()) <= usize::MAX,
        apart(stmts_code(env, ctx, st, ss, ss.len()).vars, pool_len(env.a64()) as nat),
        c.at is None,
        ready(env, c, st.vars, vals),
        run(ss, ss.len(), vals, meanings(env.a64())) is Some,
    ensures
        ({
            let b = stmts_code(env, ctx, st, ss, ss.len());
            exists|d: Cpu| #[trigger]
                leads(st.code, b.code, c, d) && reached(
                    env,
                    ctx,
                    b,
                    b.vars,
                    c,
                    d,
                    run(ss, ss.len(), vals, meanings(env.a64()))->Some_0,
                )
        }),
{
    lemma_leads_self(st.code, c);
    let b = stmts_code(env, ctx, st, ss, ss.len());
    let d = lemma_stmts(env, ctx, st, ss, ss.len(), vals, b.vars, st.code, c, c);
    assert(leads(st.code, b.code, c, d));
}

// ---------------------------------------------------------------------------
// Loops
// ---------------------------------------------------------------------------

/// Where a pass of a loop leads: to its next pass at `start`, behind the loop, or
/// out of the function.
pub open spec fn passed(env: Env, st: Code, c: Cpu, d: Cpu, start: Seq<char>, o: Outcome) -> bool {
    &&& c.stack == d.stack
    &&& match o {
        Outcome::Next(v) | Outcome::Continue(v) => d.at == Some(start) && ready(
            env,
            d,
            st.vars,
            v,
        ),
        Outcome::Break(v) => d.at is None && ready(env, d, st.vars, v),
        Outcome::Return(x) => d.at == st.epi && d.regs.contains_key(ret(env.a64())) && d.regs[ret(env.a64())] == x,
    }
}

/// The body of a loop and the jump behind it.
proof fn lemma_body(env: Env, ctx: Ctx, st: Code, ss: Seq<Stmt>, start: Seq<char>, end: Seq<char>, vals: Vals, last: Map<Seq<char>, VarLoc>, from: Seq<char>, c0: Cpu, c: Cpu) -> (d: Cpu)
    requires
        leads(from, st.code, c0, c),
        ctx.loops.len() > 0,
        ctx.loops.last() == (start, end),
        start != end,
        st.epi != Some(end),
        all_plain(ss, ss.len(), true),
        exits(ctx, st),
        st.labels + all_ifs(ss, ss.len()) <= usize::MAX,
        apart(last, pool_len(env.a64()) as nat),
        within(stmts_code(env, ctx, st, ss, ss.len()).vars, last),
        c.at is Some ==> c.at == Some(end),
        c.at is None ==> ready(env, c, st.vars, vals) && run(ss, ss.len(), vals, meanings(env.a64())) is Some,
    ensures
        ({
            let b = stmts_code(env, ctx, st, ss, ss.len());
            &&& leads(from, b.code + ins1("b"@, start) + label_line(end), c0, d)
            &&& c.at is Some ==> d == (Cpu { at: None, ..c })
            &&& c.at is None ==> passed(env, b, c, d, start, run(ss, ss.len(), vals, meanings(env.a64()))->Some_0)
        }),
{
    let b = stmts_code(env, ctx, st, ss, ss.len());
    if c.at is Some {
        lemma_narrow(end, 0, usize::MAX + 1, st.labels as int, st.labels + all_ifs(ss, ss.len()));
    }
    let d1 = lemma_stmts(env, ctx, st, ss, ss.len(), vals, last, from, c0, c);
    lemma_turn(from, b.code, c0, d1, start, end)
}

/// The labels of loops.
proof fn lemma_loop_labels(id: usize)
    ensures
        lab(".Lwhile_"@, id) != lab(".Lwend_"@, id),
        lab(".Lloop_"@, id) != lab(".Lloopend_"@, id),
        elsewhere(lab(".Lwhile_"@, id)),
        elsewhere(lab(".Lwend_"@, id)),
        elsewhere(lab(".Lloop_"@, id)),
        elsewhere(lab(".Lloopend_"@, id)),
{
    reveal_strlit(".Lwhile_");
    reveal_strlit(".Lwend_");
    reveal_strlit(".Lloop_");
    reveal_strlit(".Lloopend_");
    lemma_prefixes(".Lwhile_"@, ".Lwend_"@, 3, id, id);
    lemma_prefixes(".Lloop_"@, ".Lloopend_"@, 6, id, id);
    lemma_elsewhere(".Lwhile_"@, id);
    lemma_elsewhere(".Lwend_"@, id);
    lemma_elsewhere(".Lloop_"@, id);
    lemma_elsewhere(".Lloopend_"@, id);
}

/// A `while` loop runs its body for as long as its condition holds: whether it is
/// met for the first time or for another pass, its text leads behind it where the
/// condition does not hold. Where it holds, the body is run, and control goes to
/// the next pass, or behind the loop at a `break`.
pub proof fn law_while_loops_run_while_their_condition_holds(env: Env, ctx: Ctx, st: Code, w: WhileStmt, vals: Vals, c: Cpu)
    requires
        simple(w.condition),
        all_plain(w.body@, w.body@.len(), true),
        st.epi is Some,
        elsewhere(st.epi->Some_0),
        st.epi->Some_0 != lab(".Lwend_"@, st.labels),
        st.labels + 1 + all_ifs(w.body@, w.body@.len()) <= usize::MAX,
        apart(while_code(env, ctx, st, w).vars, pool_len(env.a64()) as nat),
        c.at is None || c.at == Some(lab(".Lwhile_"@, st.labels)),
        ready(env, c, st.vars, vals),
        (meanings(env.a64()))(w.condition, vals) matches Some(v) && (v != 0 ==> run(
            w.body@,
            w.body@.len(),
            vals,
            meanings(env.a64()),
        ) is Some),
    ensures
        ({
            let b = while_code(env, ctx, st, w);
            exists|d: Cpu| #[trigger]
                leads(st.code, b.code, c, d) && passed(
                    env,
                    b,
                    c,
                    d,
                    lab(".Lwhile_"@, st.labels),
                    if (meanings(env.a64()))(w.condition, vals) == Some(0int) {
                        Outcome::Break(vals)
                    } else {
                        run(w.body@, w.body@.len(), vals, meanings(env.a64()))->Some_0
                    },
                )
        }),
{
    let id = st.labels;
    let start = lab(".Lwhile_"@, id);
    let end = lab(".Lwend_"@, id);
    lemma_loop_labels(id);
    let inner = Ctx { loops: ctx.loops.push((start, end)), ..ctx };
    let b = while_code(env, ctx, st, w);
    lemma_leads_self(st.code, c);
    let d0 = lemma_end(st.code, st.code, c, c, start);
    let s0 = st.labelled().with(st.code + label_line(start));
    lemma_ready(env, c, d0, st.vars, vals);
    let d1 = lemma_plain_cond(env, inner, s0, w.condition, end, vals, st.code, c, d0);
    let s1 = plain_cond(env, inner, s0, w.condition, end);
    lemma_ready(env, d0, d1, st.vars, vals);
    let d2 = lemma_body(env, inner, s1, w.body@, start, end, vals, b.vars, st.code, c, d1);
    if d1.at is Some {
        lemma_within(env, inner, s1, w.body@, w.body@.len());
        lemma_ready(env, d1, d2, st.vars, vals);
        lemma_more(env, d2, st.vars, b.vars, vals);
    }
    assert(leads(st.code, b.code, c, d2));
}

/// A `loop` runs its body pass by pass, up to a `break`.
pub proof fn law_loops_run_until_a_break(env: Env, ctx: Ctx, st: Code, l: LoopStmt, vals: Vals, c: Cpu)
    requires
        all_plain(l.body@, l.body@.len(), true),
        st.epi is Some,
        elsewhere(st.epi->Some_0),
        st.epi->Some_0 != lab(".Lloopend_"@, st.labels),
        st.labels + 1 + all_ifs(l.body@, l.body@.len()) <= usize::MAX,
        apart(stmt_code(env, ctx, st, Stmt::Loop(l)).vars, pool_len(env.a64()) as nat),
        c.at is None || c.at == Some(lab(".Lloop_"@, st.labels)),
        ready(env, c, st.vars, vals),
        run(l.body@, l.body@.len(), vals, meanings(env.a64())) is Some,
    ensures
        ({
            let b = stmt_code(env, ctx, st, Stmt::Loop(l));
            exists|d: Cpu| #[trigger]
                leads(st.code, b.code, c, d) && passed(
                    env,
                    b,
                    c,
                    d,
                    lab(".Lloop_"@, st.labels),
                    run(l.body@, l.body@.len(), vals, meanings(env.a64()))->Some_0,
                )
        }),
{
    let id = st.labels;
    let start = lab(".Lloop_"@, id);
    let end = lab(".Lloopend_"@, id);
    lemma_loop_labels(id);
    let inner = Ctx { loops: ctx.loops.push((start, end)), ..ctx };
    let b = stmt_code(env, ctx, st, Stmt::Loop(l));
    lemma_leads_self(st.code, c);
    let d0 = lemma_end(st.code, st.code, c, c, start);
    let s0 = st.labelled().with(st.code + label_line(start));
    lemma_ready(env, c, d0, st.vars, vals);
    let d1 = lemma_body(env, inner, s0, l.body@, start, end, vals, b.vars, st.code, c, d0);
    assert(leads(st.code, b.code, c, d1));
}

// ---------------------------------------------------------------------------
// Counting loops
// ---------------------------------------------------------------------------

/// A counting loop goes on: its variable has not got to the bound, in the
/// direction of the step.
pub open spec fn goes_on(x: int, bound: int, step: int) -> bool {
    if step >= 0 {
        x < bound
    } else {
        x > bound
    }
}

/// Where a pass of a counting loop leads. Behind the body the step is added to the
/// variable `n`.
pub open spec fn counted(env: Env, st: Code, c: Cpu, d: Cpu, start: Seq<char>, n: Seq<char>, step: int, o: Outcome) -> bool {
    &&& c.stack == d.stack
    &&& match o {
        Outcome::Next(v) | Outcome::Continue(v) => v.contains_key(n) && d.at == Some(start)
            && ready(env, d, st.vars, v.insert(n, wrapped(v[n] + step, width(env.a64())))),
        Outcome::Break(v) => d.at is None && ready(env, d, st.vars, v),
        Outcome::Return(x) => d.at == st.epi && d.regs.contains_key(ret(env.a64())) && d.regs[ret(env.a64())] == x,
    }
}

/// A line that loads a slot.
pub open spec fn load_line(env: Env, r: Seq<char>, o: int) -> Ins {
    Ins::Load(r, fp(env.a64()), o)
}

/// The line that loads a variable to the return register.
pub open spec fn load_var_line(env: Env, l: VarLoc) -> Ins {
    match l {
        VarLoc::Reg(i) => Ins::Two("mov"@, ret(env.a64()), pool_reg(env.a64(), i as int)),
        VarLoc::Stack(o) => load_line(env, ret(env.a64()), o as int),
    }
}

/// The test of the bound of a counting loop.
proof fn lemma_bound(env: Env, from: Seq<char>, out: Seq<char>, c0: Cpu, c: Cpu, l: VarLoc, bound: i32, j: Seq<char>, end: Seq<char>) -> (d: Cpu)
    requires
        leads(from, out, c0, c),
        j == "bge"@ || j == "ble"@,
        c.at is None ==> c.a64 == env.a64() && held(c, l) is Some && c.slots.contains_key(bound as int),
    ensures
        leads(
            from,
            load_var(out, env.a64(), l, ret(env.a64())) + mem_line("ldr"@, tmp(env.a64()), fp(env.a64()), bound as int) + ins2("cmp"@, ret(env.a64()), tmp(env.a64())) + ins1(j, end),
            c0,
            d,
        ),
        c.at is Some ==> d == c,
        c.at is None ==> same_store(c, d) && d.at == (if j == "bge"@ && held(c, l)->Some_0
            >= c.slots[bound as int] || j == "ble"@ && held(c, l)->Some_0 <= c.slots[bound as int] {
            Some(end)
        } else {
            None
        }),
{
    reveal(load_var);
    reveal(mem_line);
    reveal(ins1);
    reveal(ins2);
    lemma_moves();
    lemma_branches();
    lemma_free(env.a64());
    lemma_pool(env.a64());
    let i1 = load_var_line(env, l);
    let d1 = lemma_line(from, out, c0, c, i1);
    let i2 = load_line(env, tmp(env.a64()), bound as int);
    let o1 = out + ins_text(i1);
    let d2 = lemma_line(from, o1, c0, d1, i2);
    let i3 = Ins::Two("cmp"@, ret(env.a64()), tmp(env.a64()));
    let o2 = o1 + ins_text(i2);
    let d3 = lemma_line(from, o2, c0, d2, i3);
    let o3 = o2 + ins_text(i3);
    if c.at is None {
        lemma_set(c, ret(env.a64()), held(c, l)->Some_0);
        lemma_set(d1, tmp(env.a64()), c.slots[bound as int]);
        lemma_chain(c, d1, d2);
    }
    lemma_line(from, o3, c0, d3, Ins::Branch(j, end))
}

/// The labels of a counting loop.
proof fn lemma_range_labels(id: usize)
    ensures
        ({
            let (cond, pos, skip) = (lab(".Lfrcond_"@, id), lab(".Lfrpos_"@, id), lab(".Lfrskip_"@, id));
            let (incr, end) = (lab(".Lfrincr_"@, id), lab(".Lfrend_"@, id));
            &&& cond != pos && cond != skip && cond != incr && cond != end
            &&& pos != skip && pos != incr && pos != end
            &&& skip != incr && skip != end
            &&& incr != end
            &&& elsewhere(incr)
            &&& elsewhere(end)
        }),
{
    reveal_strlit(".Lfrcond_");
    reveal_strlit(".Lfrpos_");
    reveal_strlit(".Lfrskip_");
    reveal_strlit(".Lfrincr_");
    reveal_strlit(".Lfrend_");
    lemma_prefixes(".Lfrcond_"@, ".Lfrpos_"@, 4, id, id);
    lemma_prefixes(".Lfrcond_"@, ".Lfrskip_"@, 4, id, id);
    lemma_prefixes(".Lfrcond_"@, ".Lfrincr_"@, 4, id, id);
    lemma_prefixes(".Lfrcond_"@, ".Lfrend_"@, 4, id, id);
    lemma_prefixes(".Lfrpos_"@, ".Lfrskip_"@, 4, id, id);
    lemma_prefixes(".Lfrpos_"@, ".Lfrincr_"@, 4, id, id);
    lemma_prefixes(".Lfrpos_"@, ".Lfrend_"@, 4, id, id);
    lemma_prefixes(".Lfrskip_"@, ".Lfrincr_"@, 4, id, id);
    lemma_prefixes(".Lfrskip_"@, ".Lfrend_"@, 4, id, id);
    lemma_prefixes(".Lfrincr_"@, ".Lfrend_"@, 4, id, id);
    lemma_elsewhere(".Lfrincr_"@, id);
    lemma_elsewhere(".Lfrend_"@, id);
}

/// The head of a counting loop.
proof fn lemma_head(env: Env, from: Seq<char>, out: Seq<char>, c0: Cpu, c: Cpu, id: usize, l: VarLoc, bound: i32, step: i32) -> (d: Cpu)
    requires
        leads(from, out, c0, c),
        c.at is None || c.at == Some(lab(".Lfrcond_"@, id)),
        c.a64 == env.a64() && held(c, l) is Some,
        c.slots.contains_key(bound as int),
        c.slots.contains_key(step as int),
    ensures
        leads(from, range_head(out, env.a64(), id, l, bound, step), c0, d),
        same_store(c, d),
        d.at == (if goes_on(held(c, l)->Some_0, c.slots[bound as int], c.slots[step as int]) {
            None
        } else {
            Some(lab(".Lfrend_"@, id))
        }),
{
    reveal(range_head);
    reveal(mem_line);
    reveal(ins1);
    reveal(ins1i);
    lemma_moves();
    lemma_branches();
    lemma_free(env.a64());
    lemma_range_labels(id);
    let (cond, pos, skip, end) = (
        lab(".Lfrcond_"@, id),
        lab(".Lfrpos_"@, id),
        lab(".Lfrskip_"@, id),
        lab(".Lfrend_"@, id),
    );
    let d0 = lemma_end(from, out, c0, c, cond);
    let o0 = out + label_line(cond);
    let i1 = load_line(env, ret(env.a64()), step as int);
    let d1 = lemma_line(from, o0, c0, d0, i1);
    let o1 = o0 + ins_text(i1);
    let i2 = Ins::Imm("cmp"@, ret(env.a64()), 0);
    let d2 = lemma_line(from, o1, c0, d1, i2);
    let o2 = o1 + ins_text(i2);
    let i3 = Ins::Branch("bge"@, pos);
    let d3 = lemma_line(from, o2, c0, d2, i3);
    let o3 = o2 + ins_text(i3);
    lemma_set(d0, ret(env.a64()), c.slots[step as int]);
    lemma_same(c, d3, l);
    let d4 = lemma_bound(env, from, o3, c0, d3, l, bound, "ble"@, end);
    let o4 = load_var(o3, env.a64(), l, ret(env.a64())) + mem_line("ldr"@, tmp(env.a64()), fp(env.a64()), bound as int) + ins2("cmp"@, ret(env.a64()), tmp(env.a64())) + ins1("ble"@, end);
    if d3.at is None {
        lemma_chain(c, d3, d4);
    }
    let d5 = lemma_turn(from, o4, c0, d4, skip, pos);
    let o5 = o4 + ins1("b"@, skip) + label_line(pos);
    lemma_same(c, d5, l);
    let d6 = lemma_bound(env, from, o5, c0, d5, l, bound, "bge"@, end);
    let o6 = load_var(o5, env.a64(), l, ret(env.a64())) + mem_line("ldr"@, tmp(env.a64()), fp(env.a64()), bound as int) + ins2("cmp"@, ret(env.a64()), tmp(env.a64())) + ins1("bge"@, end);
    if d5.at is None {
        lemma_chain(c, d5, d6);
    }
    lemma_end(from, o6, c0, d6, skip)
}

/// A variable that is left alone holds what it held.
proof fn lemma_same(c: Cpu, d: Cpu, l: VarLoc)
    requires
        same_store(c, d),
        held(c, l) is Some,
    ensures
        held(d, l) == held(c, l),
{
    match l {
        VarLoc::Reg(i) => {
            assert(same_register(c, d, pool_reg(c.a64, i as int)));
        },
        VarLoc::Stack(_) => {},
    }
}

/// A variable that has changed, beside others that have not.
proof fn lemma_changed(env: Env, vars: Map<Seq<char>, VarLoc>, last: Map<Seq<char>, VarLoc>, n: Seq<char>, vals: Vals, c: Cpu, d: Cpu, v: int)
    requires
        ready(env, c, vars, vals),
        vars.contains_key(n),
        within(vars, last),
        apart(last, pool_len(env.a64()) as nat),
        c.a64 == d.a64,
        fits(v, width(env.a64())),
        held(d, vars[n]) == Some(v),
        forall|x: Seq<char>|
            vars.contains_key(x) && x != n && #[trigger] last.contains_key(x) ==> held(d, vars[x])
                == held(c, vars[x]),
    ensures
        ready(env, d, vars, vals.insert(n, v)),
{
    let w = vals.insert(n, v);
    assert forall|x: Seq<char>| #[trigger] w.contains_key(x) implies vars.contains_key(x) && held(
        d,
        vars[x],
    ) == Some(w[x]) by {
        if x != n {
            assert(vals.contains_key(x));
            assert(last.contains_key(x));
        }
    }
}

/// The tail of a counting loop.
#[verifier::rlimit(30)]
proof fn lemma_tail(env: Env, vars: Map<Seq<char>, VarLoc>, last: Map<Seq<char>, VarLoc>, n: Seq<char>, vals: Vals, from: Seq<char>, out: Seq<char>, c0: Cpu, c: Cpu, id: usize, step: i32) -> (d: Cpu)
    requires
        leads(from, out, c0, c),
        vars.contains_key(n),
        vals.contains_key(n),
        within(vars, last),
        apart(last, pool_len(env.a64()) as nat),
        c.at is None || c.at == Some(lab(".Lfrincr_"@, id)) ==> ready(env, c, vars, vals)
            && c.slots.contains_key(step as int),
    ensures
        leads(from, range_tail(out, env.a64(), id, vars[n], step), c0, d),
        d.stack == c.stack,
        c.at is None || c.at == Some(lab(".Lfrincr_"@, id)) ==> d.at == Some(lab(".Lfrcond_"@, id))
            && ready(env, d, vars, vals.insert(n, wrapped(vals[n] + c.slots[step as int], width(env.a64())))),
        c.at == Some(lab(".Lfrend_"@, id)) ==> d == (Cpu { at: None, ..c }),
        c.at is Some && c.at != Some(lab(".Lfrincr_"@, id)) && c.at != Some(lab(".Lfrend_"@, id))
            ==> d == c,
{
    reveal(range_tail);
    lemma_range_labels(id);
    let (incr, cond, end) = (lab(".Lfrincr_"@, id), lab(".Lfrcond_"@, id), lab(".Lfrend_"@, id));
    let l = vars[n];
    assert(last.contains_key(n) && last[n] == l);
    let d0 = lemma_end(from, out, c0, c, incr);
    let o0 = out + label_line(incr);
    if d0.at is None {
        lemma_ready(env, c, d0, vars, vals);
    }
    let d2 = lemma_add(env, from, o0, c0, d0, l, step);
    let o2 = added_text(env, o0, l, step);
    if d0.at is None {
        let v = wrapped(vals[n] + c.slots[step as int], width(env.a64()));
        assert(vals.contains_key(n));
        assert(held(d0, l) == Some(vals[n]));
        lemma_wrapped_fits(vals[n] + c.slots[step as int], width(env.a64()));
        assert forall|x: Seq<char>|
            vars.contains_key(x) && x != n && #[trigger] last.contains_key(x) implies held(
            d2,
            vars[x],
        ) == held(d0, vars[x]) by {
            assert(last[x] == vars[x]);
            assert(vars[x] != l);
        }
        lemma_changed(env, vars, last, n, vals, d0, d2, v);
    }
    let d3 = lemma_turn(from, o2, c0, d2, cond, end);
    if d0.at is None {
        lemma_ready(env, d2, d3, vars, vals.insert(n, wrapped(vals[n] + c.slots[step as int], width(env.a64()))));
    }
    d3
}

/// The addition of the step.
pub open spec fn added_text(env: Env, out: Seq<char>, l: VarLoc, step: i32) -> Seq<char> {
    match l {
        VarLoc::Reg(i) => out + mem_line("ldr"@, tmp(env.a64()), fp(env.a64()), step as int) + ins3(
            "add"@,
            pool_reg(env.a64(), i as int),
            pool_reg(env.a64(), i as int),
            tmp(env.a64()),
        ),
        VarLoc::Stack(off) => out + mem_line("ldr"@, tmp(env.a64()), fp(env.a64()), step as int)
            + mem_line("ldr"@, ret(env.a64()), fp(env.a64()), off as int) + ins3(
            "add"@,
            ret(env.a64()),
            ret(env.a64()),
            tmp(env.a64()),
        ) + mem_line("str"@, ret(env.a64()), fp(env.a64()), off as int),
    }
}

/// The addition of the step.
proof fn lemma_add(env: Env, from: Seq<char>, out: Seq<char>, c0: Cpu, c: Cpu, l: VarLoc, step: i32) -> (d: Cpu)
    requires
        leads(from, out, c0, c),
        l matches VarLoc::Reg(i) ==> i < pool_len(env.a64()) as nat,
        c.at is None ==> c.a64 == env.a64() && held(c, l) is Some && c.slots.contains_key(step as int),
    ensures
        leads(from, added_text(env, out, l, step), c0, d),
        c.at is Some ==> d == c,
        c.at is None ==> {
            &&& d.at is None
            &&& d.stack == c.stack
            &&& d.a64 == c.a64 && held(d, l) == Some(wrapped(held(c, l)->Some_0 + c.slots[step as int], width(env.a64())))
            &&& forall|k: VarLoc|
                k != l && (k matches VarLoc::Reg(i) ==> i < pool_len(env.a64()) as nat) ==> #[trigger] held(d, k) == held(c, k)
        },
{
    reveal(mem_line);
    reveal(ins3);
    lemma_operations();
    lemma_free(env.a64());
    lemma_pool(env.a64());
    let i1 = load_line(env, tmp(env.a64()), step as int);
    let d1 = lemma_line(from, out, c0, c, i1);
    let o1 = out + ins_text(i1);
    match l {
        VarLoc::Reg(i) => {
            let r = pool_reg(env.a64(), i as int);
            lemma_line(from, o1, c0, d1, Ins::Three("add"@, r, r, tmp(env.a64())))
        },
        VarLoc::Stack(o) => {
            let r = ret(env.a64());
            let i2 = load_line(env, r, o as int);
            let d2 = lemma_line(from, o1, c0, d1, i2);
            let o2 = o1 + ins_text(i2);
            let i3 = Ins::Three("add"@, r, r, tmp(env.a64()));
            let d3 = lemma_line(from, o2, c0, d2, i3);
            lemma_line(from, o2 + ins_text(i3), c0, d3, Ins::Store(r, fp(env.a64()), o as int))
        },
    }
}

/// The state behind the head, the body and the tail of a counting loop.
#[verifier::opaque]
pub open spec fn range_rest(env: Env, ctx: Ctx, st: Code, id: usize, n: Seq<char>, ss: Seq<Stmt>, bound: i32, step: i32) -> Code {
    let s1 = st.with(range_head(st.code, env.a64(), id, st.vars[n], bound, step));
    let s2 = stmts_code(env, range_ctx(ctx, id), s1, ss, ss.len());
    s2.with(range_tail(s2.code, env.a64(), id, st.vars[n], step))
}

/// The head, the body and the tail of a counting loop.
proof fn lemma_range(env: Env, ctx: Ctx, st: Code, id: usize, n: Seq<char>, ss: Seq<Stmt>, bound: i32, step: i32, vals: Vals, last: Map<Seq<char>, VarLoc>, from: Seq<char>, c0: Cpu, c: Cpu) -> (d: Cpu)
    requires
        leads(from, st.code, c0, c),
        c.at is None || c.at == Some(lab(".Lfrcond_"@, id)),
        st.vars.contains_key(n),
        vals.contains_key(n),
        ready(env, c, st.vars, vals),
        c.slots.contains_key(bound as int),
        c.slots.contains_key(step as int),
        no_slot(last, step as int),
        all_plain(ss, ss.len(), true),
        st.epi is Some,
        elsewhere(st.epi->Some_0),
        st.epi->Some_0 != lab(".Lfrend_"@, id),
        st.epi->Some_0 != lab(".Lfrincr_"@, id),
        st.labels + all_ifs(ss, ss.len()) <= usize::MAX,
        apart(last, pool_len(env.a64()) as nat),
        within(range_rest(env, ctx, st, id, n, ss, bound, step).vars, last),
        goes_on(vals[n], c.slots[bound as int], c.slots[step as int]) ==> run(
            ss,
            ss.len(),
            vals,
            meanings(env.a64()),
        ) is Some,
    ensures
        ({
            let b = range_rest(env, ctx, st, id, n, ss, bound, step);
            &&& leads(from, b.code, c0, d)
            &&& counted(
                env,
                b,
                c,
                d,
                lab(".Lfrcond_"@, id),
                n,
                c.slots[step as int],
                if goes_on(vals[n], c.slots[bound as int], c.slots[step as int]) {
                    run(ss, ss.len(), vals, meanings(env.a64()))->Some_0
                } else {
                    Outcome::Break(vals)
                },
            )
        }),
{
    reveal(range_rest);
    let l = st.vars[n];
    let s1 = st.with(range_head(st.code, env.a64(), id, st.vars[n], bound, step));
    let inner = range_ctx(ctx, id);
    let s2 = stmts_code(env, inner, s1, ss, ss.len());
    lemma_range_labels(id);
    let d1 = lemma_head(env, from, st.code, c0, c, id, l, bound, step);
    lemma_ready(env, c, d1, st.vars, vals);
    if d1.at is Some {
        lemma_narrow(d1.at->Some_0, 0, usize::MAX + 1, s1.labels as int, s1.labels + all_ifs(ss, ss.len()));
    }
    let d2 = lemma_stmts(env, inner, s1, ss, ss.len(), vals, last, from, c0, d1);
    lemma_within(env, inner, s1, ss, ss.len());
    assert(s2.vars.contains_key(n) && s2.vars[n] == l);
    let w = if d1.at is Some {
        vals
    } else {
        match run(ss, ss.len(), vals, meanings(env.a64()))->Some_0 {
            Outcome::Next(v) => v,
            Outcome::Continue(v) => v,
            Outcome::Break(v) => v,
            Outcome::Return(_) => vals,
        }
    };
    if d1.at is Some {
        lemma_more(env, d2, st.vars, s2.vars, vals);
    } else {
        lemma_run_keeps(ss, ss.len(), vals, meanings(env.a64()), n);
        assert(same_slot(d1, d2, step as int));
    }
    lemma_tail(env, s2.vars, last, n, w, from, s2.code, c0, d2, id, step)
}

/// A counting loop that is met for the first time gives its variable the first
/// value, notes the bound and the step, and goes on as on every pass: where the
/// variable has not got to the bound the body is run and the step is added, and
/// behind the bound control goes on behind the loop.
#[verifier::rlimit(30)]
pub proof fn law_counting_loops_start_at_the_first_value(env: Env, ctx: Ctx, st: Code, fr: ForRangeStmt, vals: Vals, c: Cpu)
    requires
        simple(fr.from),
        simple(fr.to),
        fr.step matches Some(e) ==> simple(*e),
        all_plain(fr.body@, fr.body@.len(), true),
        st.epi is Some,
        elsewhere(st.epi->Some_0),
        st.epi->Some_0 != lab(".Lfrend_"@, st.labels),
        st.epi->Some_0 != lab(".Lfrincr_"@, st.labels),
        st.labels + 1 + all_ifs(fr.body@, fr.body@.len()) <= usize::MAX,
        apart(for_range_code(env, ctx, st, fr).vars, pool_len(env.a64()) as nat),
        own_room(env, ctx, st, fr),
        c.at is None,
        ready(env, c, st.vars, vals),
        first_value(env, fr, vals) is Some,
        bound_value(env, fr, vals) is Some,
        step_value(env, fr, vals) is Some,
        goes_on(
            first_value(env, fr, vals)->Some_0,
            bound_value(env, fr, vals)->Some_0,
            step_value(env, fr, vals)->Some_0,
        ) ==> run(fr.body@, fr.body@.len(), started(env, fr, vals), meanings(env.a64())) is Some,
    ensures
        ({
            let b = for_range_code(env, ctx, st, fr);
            let (x, y, z) = (
                first_value(env, fr, vals)->Some_0,
                bound_value(env, fr, vals)->Some_0,
                step_value(env, fr, vals)->Some_0,
            );
            exists|d: Cpu| #[trigger]
                leads(st.code, b.code, c, d) && counted(
                    env,
                    b,
                    c,
                    d,
                    lab(".Lfrcond_"@, st.labels),
                    fr.var.name@,
                    z,
                    if goes_on(x, y, z) {
                        run(fr.body@, fr.body@.len(), started(env, fr, vals), meanings(env.a64()))->Some_0
                    } else {
                        Outcome::Break(started(env, fr, vals))
                    },
                )
        }),
{
    lemma_range_parts(env, ctx, st, fr);
    lemma_leads_self(st.code, c);
    let d1 = lemma_range_entry(env, ctx, st, fr, vals, for_range_code(env, ctx, st, fr).vars, c);
    let id = st.labels;
    let bound = down8(st.off);
    let step = down8(bound);
    let s5 = range_start(env, ctx, st, fr);
    let b = for_range_code(env, ctx, st, fr);
    let d = lemma_range(
        env,
        ctx,
        s5,
        id,
        fr.var.name@,
        fr.body@,
        bound,
        step,
        started(env, fr, vals),
        b.vars,
        st.code,
        c,
        d1,
    );
    assert(leads(st.code, b.code, c, d));
}

/// The value that the variable of a counting loop starts with.
pub open spec fn first_value(env: Env, fr: ForRangeStmt, vals: Vals) -> Option<int> {
    (meanings(env.a64()))(fr.from, vals)
}

/// The values of variables when a counting loop starts.
pub open spec fn started(env: Env, fr: ForRangeStmt, vals: Vals) -> Vals {
    vals.insert(fr.var.name@, first_value(env, fr, vals)->Some_0)
}

/// The bound of a counting loop.
pub open spec fn bound_value(env: Env, fr: ForRangeStmt, vals: Vals) -> Option<int> {
    (meanings(env.a64()))(fr.to, started(env, fr, vals))
}

/// The step of a counting loop, which is one where none is given.
pub open spec fn step_value(env: Env, fr: ForRangeStmt, vals: Vals) -> Option<int> {
    match fr.step {
        Some(e) => (meanings(env.a64()))(*e, started(env, fr, vals)),
        None => Some(1),
    }
}

/// The bound and the step of a counting loop have slots of their own.
pub open spec fn own_room(env: Env, ctx: Ctx, st: Code, fr: ForRangeStmt) -> bool {
    let vars = for_range_code(env, ctx, st, fr).vars;
    let bound = down8(st.off);
    let step = down8(bound);
    bound != step && no_slot(vars, bound as int) && no_slot(vars, step as int)
}

/// The state in front of the head of a counting loop.
#[verifier::opaque]
pub open spec fn range_start(env: Env, ctx: Ctx, st: Code, fr: ForRangeStmt) -> Code {
    let bound = down8(st.off);
    let s1 = expr_code(env, ctx, range_entry(st), fr.from, ret(env.a64()));
    let (loc, s2) = place_var(env.a64(), s1, fr.var.name@);
    let s3 = expr_code(env, ctx, s2.with(store_var(s2.code, env.a64(), loc, ret(env.a64()))), fr.to, ret(env.a64()));
    let s4 = s3.with(s3.code + mem_line("str"@, ret(env.a64()), fp(env.a64()), bound as int));
    step_code(env, ctx, s4, fr.step, down8(bound))
}

/// The state in front of the head.
proof fn lemma_range_entry(env: Env, ctx: Ctx, st: Code, fr: ForRangeStmt, vals: Vals, last: Map<Seq<char>, VarLoc>, c: Cpu) -> (d: Cpu)
    requires
        leads(st.code, st.code, c, c),
        simple(fr.from),
        simple(fr.to),
        fr.step matches Some(e) ==> simple(*e),
        apart(last, pool_len(env.a64()) as nat),
        last == for_range_code(env, ctx, st, fr).vars,
        own_room(env, ctx, st, fr),
        c.at is None,
        ready(env, c, st.vars, vals),
        first_value(env, fr, vals) is Some,
        bound_value(env, fr, vals) is Some,
        step_value(env, fr, vals) is Some,
    ensures
        ({
            let b = range_start(env, ctx, st, fr);
            let bound = down8(st.off) as int;
            let step = down8(down8(st.off)) as int;
            &&& leads(st.code, b.code, c, d)
            &&& d.at is None
            &&& d.stack == c.stack
            &&& ready(env, d, b.vars, started(env, fr, vals))
            &&& b.vars.contains_key(fr.var.name@)
            &&& b.epi == st.epi
            &&& b.labels == bump(st.labels)
            &&& within(b.vars, last)
            &&& d.slots.contains_key(bound) && d.slots[bound] == bound_value(
                env,
                fr,
                vals,
            )->Some_0
            &&& d.slots.contains_key(step) && d.slots[step] == step_value(env, fr, vals)->Some_0
        }),
{
    reveal(range_start);
    lemma_free(env.a64());
    lemma_pool(env.a64());
    reveal(store_var_unless);
    let n = fr.var.name@;
    let bound = down8(st.off);
    let step = down8(bound);
    let w = started(env, fr, vals);
    let from = st.code;
    let e0 = range_entry(st);
    let d1 = lemma_expr(env, ctx, e0, fr.from, ret(env.a64()), vals, from, c, c);
    let s1 = expr_code(env, ctx, e0, fr.from, ret(env.a64()));
    lemma_placed(env, s1, n);
    let (loc, s2) = place_var(env.a64(), s1, fr.var.name@);
    lemma_range_within(env, ctx, st, fr);
    lemma_ready(env, c, d1, st.vars, vals);
    lemma_more(env, d1, st.vars, s2.vars, vals);
    lemma_meaning_fits(fr.from, vals, env.a64());
    let d2 = lemma_store(env, s2.vars, last, n, vals, from, s2.code, c, d1);
    let t2 = s2.with(store_var(s2.code, env.a64(), loc, ret(env.a64())));
    let d3 = lemma_expr(env, ctx, t2, fr.to, ret(env.a64()), w, from, c, d2);
    let s3 = expr_code(env, ctx, t2, fr.to, ret(env.a64()));
    lemma_ready(env, d2, d3, s2.vars, w);
    let d4 = lemma_slot(env, from, s3.code, c, d3, bound, last, s2.vars, w);
    let s4 = s3.with(s3.code + mem_line("str"@, ret(env.a64()), fp(env.a64()), bound as int));
    let d5 = match fr.step {
        Some(e) => lemma_expr(env, ctx, s4, *e, ret(env.a64()), w, from, c, d4),
        None => lemma_one(env, from, s4.code, c, d4),
    };
    lemma_ready(env, d4, d5, s2.vars, w);
    let o5 = match fr.step {
        Some(e) => expr_code(env, ctx, s4, *e, ret(env.a64())).code,
        None => s4.code + (if env.a64() {
            "    mov x0, #1\n"@
        } else {
            "    mov r0, #1\n"@
        }),
    };
    lemma_slot(env, from, o5, c, d5, step, last, s2.vars, w)
}

/// A counting loop is what comes in front of its head and what follows.
proof fn lemma_range_parts(env: Env, ctx: Ctx, st: Code, fr: ForRangeStmt)
    requires
        simple(fr.from),
        simple(fr.to),
        fr.step matches Some(e) ==> simple(*e),
    ensures
        for_range_code(env, ctx, st, fr) == range_rest(
            env,
            ctx,
            range_start(env, ctx, st, fr),
            st.labels,
            fr.var.name@,
            fr.body@,
            down8(st.off),
            down8(down8(st.off)),
        ),
        range_start(env, ctx, st, fr).vars.contains_key(fr.var.name@),
{
    let s1 = expr_code(env, ctx, range_entry(st), fr.from, ret(env.a64()));
    lemma_placed(env, s1, fr.var.name@);
    lemma_range_within(env, ctx, st, fr);
    reveal(range_start);
    reveal(range_rest);
}

/// The variables in front of the head stay.
proof fn lemma_range_within(env: Env, ctx: Ctx, st: Code, fr: ForRangeStmt)
    requires
        simple(fr.from),
        simple(fr.to),
        fr.step matches Some(e) ==> simple(*e),
    ensures
        ({
            let s1 = expr_code(env, ctx, range_entry(st), fr.from, ret(env.a64()));
            let (loc, s2) = place_var(env.a64(), s1, fr.var.name@);
            &&& within(s2.vars, for_range_code(env, ctx, st, fr).vars)
            &&& s2.vars == range_start(env, ctx, st, fr).vars
        }),
{
    reveal(range_start);
    let id = st.labels;
    let bound = down8(st.off);
    let step = down8(bound);
    let s1 = expr_code(env, ctx, range_entry(st), fr.from, ret(env.a64()));
    let (loc, s2) = place_var(env.a64(), s1, fr.var.name@);
    let t2 = s2.with(store_var(s2.code, env.a64(), loc, ret(env.a64())));
    lemma_keeps(env, ctx, t2, fr.to);
    let s3 = expr_code(env, ctx, t2, fr.to, ret(env.a64()));
    let s4 = s3.with(s3.code + mem_line("str"@, ret(env.a64()), fp(env.a64()), bound as int));
    match fr.step {
        Some(e) => lemma_keeps(env, ctx, s4, *e),
        None => {},
    }
    let s5 = range_start(env, ctx, st, fr);
    let s6 = s5.with(range_head(s5.code, env.a64(), id, loc, bound, step));
    lemma_within(env, range_ctx(ctx, id), s6, fr.body@, fr.body@.len());
}

/// A simple expression only adds code.
proof fn lemma_keeps(env: Env, ctx: Ctx, st: Code, e: Expr)
    requires
        simple(e),
    ensures
        expr_code(env, ctx, st, e, ret(env.a64())) == st.with(expr_code(env, ctx, st, e, ret(env.a64())).code),
{
    lemma_free(env.a64());
    lemma_pool(env.a64());
    reveal(store_var_unless);
    let c = Cpu {
        a64: env.a64(),
        regs: Map::empty(),
        slots: Map::empty(),
        stack: Seq::empty(),
        compared: (0, 0),
        at: Some(Seq::empty()),
    };
    lemma_leads_self(st.code, c);
    let d = lemma_expr(env, ctx, st, e, ret(env.a64()), Map::empty(), st.code, c, c);
}

/// A value in a slot that belongs to no variable.
proof fn lemma_slot(env: Env, from: Seq<char>, out: Seq<char>, c0: Cpu, c: Cpu, o: i32, last: Map<Seq<char>, VarLoc>, vars: Map<Seq<char>, VarLoc>, vals: Vals) -> (d: Cpu)
    requires
        leads(from, out, c0, c),
        c.at is None,
        c.regs.contains_key(ret(env.a64())),
        within(vars, last),
        no_slot(last, o as int),
        ready(env, c, vars, vals),
    ensures
        leads(from, out + mem_line("str"@, ret(env.a64()), fp(env.a64()), o as int), c0, d),
        d == (Cpu { slots: c.slots.insert(o as int, c.regs[ret(env.a64())]), ..c }),
        ready(env, d, vars, vals),
{
    reveal(mem_line);
    let d = lemma_line(from, out, c0, c, Ins::Store(ret(env.a64()), fp(env.a64()), o as int));
    assert forall|x: Seq<char>| #[trigger] vals.contains_key(x) implies vars.contains_key(x)
        && held(d, vars[x]) == Some(vals[x]) by {
        assert(vars.contains_key(x));
        assert(last.contains_key(x));
    }
    d
}

/// One in the return register.
proof fn lemma_one(env: Env, from: Seq<char>, out: Seq<char>, c0: Cpu, c: Cpu) -> (d: Cpu)
    requires
        leads(from, out, c0, c),
        c.at is None,
        c.a64 == env.a64(),
    ensures
        leads(from, out + (if env.a64() {
            "    mov x0, #1\n"@
        } else {
            "    mov r0, #1\n"@
        }), c0, d),
        d == c.set(ret(env.a64()), 1),
        same_store(c, d),
{
    lemma_moves();
    lemma_one_text(env.a64());
    lemma_free(env.a64());
    lemma_set(c, ret(env.a64()), 1);
    lemma_line(from, out, c0, c, Ins::Imm("mov"@, ret(env.a64()), 1))
}

/// A counting loop that is met for another pass goes on with the values that its
/// variable, its bound and its step have: where the variable has not got to the
/// bound the body is run and the step is added, and behind the bound control goes
/// on behind the loop.
#[verifier::rlimit(30)]
pub proof fn law_counting_loops_end_at_the_bound(env: Env, ctx: Ctx, st: Code, fr: ForRangeStmt, vals: Vals, c: Cpu)
    requires
        simple(fr.from),
        simple(fr.to),
        fr.step matches Some(e) ==> simple(*e),
        all_plain(fr.body@, fr.body@.len(), true),
        st.epi is Some,
        elsewhere(st.epi->Some_0),
        st.epi->Some_0 != lab(".Lfrend_"@, st.labels),
        st.epi->Some_0 != lab(".Lfrincr_"@, st.labels),
        st.labels + 1 + all_ifs(fr.body@, fr.body@.len()) <= usize::MAX,
        apart(for_range_code(env, ctx, st, fr).vars, pool_len(env.a64()) as nat),
        own_room(env, ctx, st, fr),
        c.at == Some(lab(".Lfrcond_"@, st.labels)),
        ready(env, c, range_start(env, ctx, st, fr).vars, vals),
        vals.contains_key(fr.var.name@),
        c.slots.contains_key(down8(st.off) as int),
        c.slots.contains_key(down8(down8(st.off)) as int),
        goes_on(
            vals[fr.var.name@],
            c.slots[down8(st.off) as int],
            c.slots[down8(down8(st.off)) as int],
        ) ==> run(fr.body@, fr.body@.len(), vals, meanings(env.a64())) is Some,
    ensures
        ({
            let b = for_range_code(env, ctx, st, fr);
            let (x, y, z) = (
                vals[fr.var.name@],
                c.slots[down8(st.off) as int],
                c.slots[down8(down8(st.off)) as int],
            );
            exists|d: Cpu| #[trigger]
                leads(st.code, b.code, c, d) && counted(
                    env,
                    b,
                    c,
                    d,
                    lab(".Lfrcond_"@, st.labels),
                    fr.var.name@,
                    z,
                    if goes_on(x, y, z) {
                        run(fr.body@, fr.body@.len(), vals, meanings(env.a64()))->Some_0
                    } else {
                        Outcome::Break(vals)
                    },
                )
        }),
{
    lemma_range_parts(env, ctx, st, fr);
    lemma_leads_self(st.code, c);
    lemma_range_passed(env, ctx, st, fr, c);
    lemma_range_within(env, ctx, st, fr);
    let id = st.labels;
    let bound = down8(st.off);
    let step = down8(bound);
    let s5 = range_start(env, ctx, st, fr);
    let b = for_range_code(env, ctx, st, fr);
    assert(s5.vars.contains_key(fr.var.name@));
    let d = lemma_range(
        env,
        ctx,
        s5,
        id,
        fr.var.name@,
        fr.body@,
        bound,
        step,
        vals,
        b.vars,
        st.code,
        c,
        c,
    );
    assert(leads(st.code, b.code, c, d));
}

/// A later pass passes over what comes in front of the head.
proof fn lemma_range_passed(env: Env, ctx: Ctx, st: Code, fr: ForRangeStmt, c: Cpu)
    requires
        leads(st.code, st.code, c, c),
        simple(fr.from),
        simple(fr.to),
        fr.step matches Some(e) ==> simple(*e),
        c.at is Some,
    ensures
        leads(st.code, range_start(env, ctx, st, fr).code, c, c),
        range_start(env, ctx, st, fr).epi == st.epi,
        range_start(env, ctx, st, fr).labels == bump(st.labels),
{
    reveal(range_start);
    lemma_free(env.a64());
    lemma_pool(env.a64());
    reveal(store_var_unless);
    let n = fr.var.name@;
    let none = Map::<Seq<char>, int>::empty();
    let bound = down8(st.off);
    let from = st.code;
    let e0 = range_entry(st);
    let d1 = lemma_expr(env, ctx, e0, fr.from, ret(env.a64()), none, from, c, c);
    let s1 = expr_code(env, ctx, e0, fr.from, ret(env.a64()));
    lemma_placed(env, s1, n);
    let (loc, s2) = place_var(env.a64(), s1, fr.var.name@);
    let d2 = lemma_store_passed(env, from, s2.code, c, c, loc);
    let t2 = s2.with(store_var(s2.code, env.a64(), loc, ret(env.a64())));
    let d3 = lemma_expr(env, ctx, t2, fr.to, ret(env.a64()), none, from, c, c);
    let s3 = expr_code(env, ctx, t2, fr.to, ret(env.a64()));
    lemma_slot_passed(env, from, s3.code, c, c, bound);
    let s4 = s3.with(s3.code + mem_line("str"@, ret(env.a64()), fp(env.a64()), bound as int));
    let o5 = match fr.step {
        Some(e) => {
            let d5 = lemma_expr(env, ctx, s4, *e, ret(env.a64()), none, from, c, c);
            expr_code(env, ctx, s4, *e, ret(env.a64())).code
        },
        None => {
            lemma_one_passed(env, from, s4.code, c, c);
            s4.code + (if env.a64() {
            "    mov x0, #1\n"@
        } else {
            "    mov r0, #1\n"@
        })
        },
    };
    lemma_slot_passed(env, from, o5, c, c, down8(bound));
}

/// A store that is passed over.
proof fn lemma_store_passed(env: Env, from: Seq<char>, out: Seq<char>, c0: Cpu, c: Cpu, loc: VarLoc) -> (d: Cpu)
    requires
        leads(from, out, c0, c),
        c.at is Some,
    ensures
        leads(from, store_var(out, env.a64(), loc, ret(env.a64())), c0, c),
        d == c,
{
    reveal(store_var);
    reveal(mem_line);
    reveal(ins2);
    lemma_moves();
    lemma_free(env.a64());
    lemma_pool(env.a64());
    let i = match loc {
        VarLoc::Reg(i) => Ins::Two("mov"@, pool_reg(env.a64(), i as int), ret(env.a64())),
        VarLoc::Stack(o) => Ins::Store(ret(env.a64()), fp(env.a64()), o as int),
    };
    lemma_line(from, out, c0, c, i)
}

/// A slot that is passed over.
proof fn lemma_slot_passed(env: Env, from: Seq<char>, out: Seq<char>, c0: Cpu, c: Cpu, o: i32)
    requires
        leads(from, out, c0, c),
        c.at is Some,
    ensures
        leads(from, out + mem_line("str"@, ret(env.a64()), fp(env.a64()), o as int), c0, c),
{
    reveal(mem_line);
    let d = lemma_line(from, out, c0, c, Ins::Store(ret(env.a64()), fp(env.a64()), o as int));
}

/// A one that is passed over.
proof fn lemma_one_passed(env: Env, from: Seq<char>, out: Seq<char>, c0: Cpu, c: Cpu)
    requires
        leads(from, out, c0, c),
        c.at is Some,
    ensures
        leads(from, out + (if env.a64() {
            "    mov x0, #1\n"@
        } else {
            "    mov r0, #1\n"@
        }), c0, c),
{
    lemma_moves();
    lemma_one_text(env.a64());
    let d = lemma_line(from, out, c0, c, Ins::Imm("mov"@, ret(env.a64()), 1));
}

// ---------------------------------------------------------------------------
// Loops over ranges and lists
// ---------------------------------------------------------------------------

/// A loop over a range from a first value to a bound is the counting loop with
/// these, the same step and the same body.
pub proof fn law_range_loops_are_counting_loops(env: Env, ctx: Ctx, st: Code, fi: ForInStmt, r: RangeExpr, fr: ForRangeStmt)
    requires
        r.start matches Some(a) && *a == fr.from,
        r.end matches Some(b) && *b == fr.to,
        r.step == fr.step,
        fi.var.name@ == fr.var.name@,
        fi.body@ == fr.body@,
    ensures
        range_loop_code(env, ctx, st, fi, r) == for_range_code(env, ctx, st, fr),
{
}

/// The passes of a loop over a list.
#[verifier::rlimit(30)]
proof fn lemma_unrolled(env: Env, ctx: Ctx, st: Code, fi: ForInStmt, es: Seq<Expr>, k: nat, vals: Vals, last: Map<Seq<char>, VarLoc>, c: Cpu) -> (d: Cpu)
    requires
        fi.iterable is List,
        es == fi.iterable->List_0.elements@,
        k <= es.len(),
        forall|i: int| 0 <= i < es.len() ==> simple(#[trigger] es[i]),
        all_plain(fi.body@, fi.body@.len(), ctx.loops.len() > 0),
        exits(ctx, st),
        st.labels + k * all_ifs(fi.body@, fi.body@.len()) <= usize::MAX,
        apart(last, pool_len(env.a64()) as nat),
        within(unrolled(env, ctx, st, fi, k).vars, last),
        c.at is None,
        ready(env, c, st.vars, vals),
        run_list(es, k, fi.var.name@, fi.body@, vals, meanings(env.a64())) is Some,
    ensures
        ({
            let b = unrolled(env, ctx, st, fi, k);
            &&& b.labels == st.labels + k * all_ifs(fi.body@, fi.body@.len())
            &&& b.epi == st.epi
            &&& leads(st.code, b.code, c, d)
            &&& reached(
                env,
                ctx,
                b,
                last,
                c,
                d,
                run_list(es, k, fi.var.name@, fi.body@, vals, meanings(env.a64()))->Some_0,
            )
        }),
    decreases k,
{
    lemma_free(env.a64());
    lemma_pool(env.a64());
    reveal(store_var_unless);
    let body = fi.body@;
    let n = fi.var.name@;
    let per = all_ifs(body, body.len());
    if k == 0 {
        lemma_leads_self(st.code, c);
        assert(k * per == 0) by (nonlinear_arith)
            requires
                k == 0,
        ;
        c
    } else {
        let j = (k - 1) as nat;
        assert(k * per == j * per + per) by (nonlinear_arith)
            requires
                k == j + 1,
        ;
        let e = es[k - 1];
        assert(simple(e));
        let prev = unrolled(env, ctx, st, fi, j);
        let b = unrolled(env, ctx, st, fi, k);
        let s1 = expr_code(env, ctx, prev, e, ret(env.a64()));
        let (loc, s2) = place_var(env.a64(), s1, n);
        let s3 = s2.with(store_var(s2.code, env.a64(), loc, ret(env.a64())));
        lemma_keeps(env, ctx, prev, e);
        lemma_placed(env, s1, n);
        lemma_within(env, ctx, s3, body, body.len());
        lemma_in(s2.vars, b.vars, last);
        lemma_in(prev.vars, s2.vars, last);
        let d1 = lemma_unrolled(env, ctx, st, fi, es, j, vals, last, c);
        let o = run_list(es, j, n, body, vals, meanings(env.a64()))->Some_0;
        let w = match o {
            Outcome::Next(v) => v,
            _ => vals,
        };
        let d2 = lemma_expr(env, ctx, prev, e, ret(env.a64()), w, st.code, c, d1);
        if d1.at is None {
            lemma_ready(env, d1, d2, prev.vars, w);
            lemma_more(env, d2, prev.vars, s2.vars, w);
            lemma_meaning_fits(e, w, env.a64());
        }
        let d3 = if d1.at is None {
            lemma_store(env, s2.vars, last, n, w, st.code, s2.code, c, d2)
        } else {
            lemma_store_passed(env, st.code, s2.code, c, d2, loc)
        };
        let x = (meanings(env.a64()))(e, w)->Some_0;
        if d3.at is Some {
            lemma_narrow(d3.at->Some_0, 0, usize::MAX + 1, s3.labels as int, s3.labels + per);
        }
        let d4 = lemma_stmts(
            env,
            ctx,
            s3,
            body,
            body.len(),
            w.insert(n, x),
            last,
            st.code,
            c,
            d3,
        );
        match o {
            Outcome::Next(v) => {
                assert forall|q: int| #[trigger] no_slot(last, q) implies same_slot(c, d4, q) by {
                    assert(same_slot(c, d1, q));
                    assert(same_slot(d2, d3, q));
                    assert(same_slot(d3, d4, q));
                }
            },
            Outcome::Break(v) => {
                lemma_in(prev.vars, s2.vars, b.vars);
                lemma_more(env, d4, prev.vars, b.vars, v);
            },
            Outcome::Continue(v) => {
                lemma_in(prev.vars, s2.vars, b.vars);
                lemma_more(env, d4, prev.vars, b.vars, v);
            },
            Outcome::Return(_) => {},
        }
        d4
    }
}

/// A loop over a list runs its body for each element, in the order of the list,
/// with the value of the element in its variable.
pub proof fn law_list_loops_run_for_each_element(env: Env, ctx: Ctx, st: Code, fi: ForInStmt, vals: Vals, c: Cpu)
    requires
        fi.iterable is List,
        forall|i: int|
            0 <= i < fi.iterable->List_0.elements@.len() ==> simple(
                #[trigger] fi.iterable->List_0.elements@[i],
            ),
        all_plain(fi.body@, fi.body@.len(), ctx.loops.len() > 0),
        exits(ctx, st),
        st.labels + fi.iterable->List_0.elements@.len() * all_ifs(fi.body@, fi.body@.len())
            <= usize::MAX,
        apart(for_in_code(env, ctx, st, fi).vars, pool_len(env.a64()) as nat),
        c.at is None,
        ready(env, c, st.vars, vals),
        run_list(
            fi.iterable->List_0.elements@,
            fi.iterable->List_0.elements@.len(),
            fi.var.name@,
            fi.body@,
            vals,
            meanings(env.a64()),
        ) is Some,
    ensures
        ({
            let b = for_in_code(env, ctx, st, fi);
            let es = fi.iterable->List_0.elements@;
            exists|d: Cpu| #[trigger]
                leads(st.code, b.code, c, d) && reached(
                    env,
                    ctx,
                    b,
                    b.vars,
                    c,
                    d,
                    run_list(es, es.len(), fi.var.name@, fi.body@, vals, meanings(env.a64()))->Some_0,
                )
        }),
{
    let es = fi.iterable->List_0.elements@;
    let b = for_in_code(env, ctx, st, fi);
    let d = lemma_unrolled(env, ctx, st, fi, es, es.len(), vals, b.vars, c);
    assert(leads(st.code, b.code, c, d));
}

} // verus!
