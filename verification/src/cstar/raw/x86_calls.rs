//! How the x86_64 text of calls and functions passes arguments.
//!
//! The laws say that an argument is where the function that is called takes its
//! parameter from.

use vstd::prelude::*;
use crate::ast::{Expr, FnParam};
use crate::cstar::raw::common::{down8, plain_arg, plain_behind, VarLoc};
use crate::cstar::raw::flow::{simple, Vals};
use crate::cstar::raw::lines::{ins1, ins1n, ins2};
use crate::cstar::raw::model::{Ctx, Env};
use crate::cstar::raw::x86_flow::ready;
use crate::cstar::raw::x86_model::{
    arg_reg, args_code, bind_args, Code, direct_args, expr_code, load_slot, load_var,
    load_var_unless, pool_reg, pop_args, pushed_args, store_slot,
};
use crate::cstar::raw::x86_run::{
    Cpu, free_register, held, Ins, ins_text, leads, lemma_chain, lemma_count_name, lemma_expr,
    lemma_fixed_text, lemma_free, lemma_holds, lemma_leads_self, lemma_line, lemma_operations,
    lemma_pool, lemma_set, lemma_single, meaning, same_register, same_store,
};
use crate::meaning::truth;

verus! {

/// The lowest slot in use behind the first `k` parameters.
pub open spec fn off_at(st: Code, k: int) -> i32 {
    if k <= 4 {
        st.off
    } else if k == 5 {
        down8(st.off)
    } else {
        down8(down8(st.off))
    }
}

/// The place of parameter `i`.
pub open spec fn place_at(st: Code, i: int) -> VarLoc {
    if i < 4 {
        VarLoc::Reg(i as usize)
    } else {
        VarLoc::Stack(off_at(st, i + 1))
    }
}

/// The registers of arguments differ from each other and from those of variables.
proof fn lemma_arg_registers()
    ensures
        forall|i: int, j: int|
            #![trigger arg_reg(i), arg_reg(j)]
            0 <= i < j < 6 ==> arg_reg(i) != arg_reg(j),
        forall|i: int, j: int|
            #![trigger arg_reg(i), pool_reg(j)]
            0 <= i < 6 && 0 <= j < 4 ==> arg_reg(i) != pool_reg(j),
        forall|i: int| 0 <= i < 6 ==> free_register(#[trigger] arg_reg(i)),
{
    reveal(arg_reg);
    reveal(pool_reg);
    reveal_strlit("rdi");
    reveal_strlit("rsi");
    reveal_strlit("rdx");
    reveal_strlit("rcx");
    reveal_strlit("r8");
    reveal_strlit("r9");
    reveal_strlit("rbx");
    reveal_strlit("r13");
    reveal_strlit("r14");
    reveal_strlit("r15");
    reveal_strlit("cl");
    reveal_strlit("al");
    assert("r8"@.len() == 2 && "r9"@.len() == 2 && "r8"@[1] != "r9"@[1]);
    assert("rdi"@[1] == 'd' && "rdi"@[2] == 'i');
    assert("rdx"@[1] == 'd' && "rdx"@[2] == 'x');
    assert("rsi"@[1] == 's');
    assert("rcx"@[1] == 'c');
    assert("rbx"@[1] == 'b');
    assert("r13"@[1] == '1' && "r14"@[1] == '1' && "r15"@[1] == '1');
    assert("cl"@[0] == 'c' && "al"@[0] == 'a');
    assert forall|i: int| 0 <= i < 6 implies free_register(#[trigger] arg_reg(i)) by {
        assert forall|j: int| 0 <= j < 4 implies arg_reg(i) != #[trigger] pool_reg(j) by {}
    }
}

/// An argument that needs no other register.
proof fn lemma_plain_arg(env: Env, ctx: Ctx, st: Code, e: Expr, target: Seq<char>, vals: Vals, from: Seq<char>, c0: Cpu, c: Cpu) -> (d: Cpu)
    requires
        leads(from, st.code, c0, c),
        simple(e),
        plain_arg(e),
        c.at is None,
        ready(env, c, st.vars, vals),
        meaning(e, vals) is Some,
        free_register(target),
    ensures
        expr_code(env, ctx, st, e, target) == st.with(expr_code(env, ctx, st, e, target).code),
        leads(from, expr_code(env, ctx, st, e, target).code, c0, d),
        d == c.set(target, meaning(e, vals)->Some_0),
        same_store(c, d),
{
    lemma_operations();
    lemma_free();
    lemma_pool();
    lemma_count_name();
    lemma_set(c, target, meaning(e, vals)->Some_0);
    match e {
        Expr::Identifier(id) => {
            reveal(load_var_unless);
            reveal(load_var);
            reveal(load_slot);
            reveal(ins2);
            match st.vars[id.name@] {
                VarLoc::Reg(i) => {
                    lemma_line(from, st.code, c0, c, Ins::Two("mov"@, target, pool_reg(i as int)))
                },
                VarLoc::Stack(o) => lemma_line(from, st.code, c0, c, Ins::Load(target, o as int)),
            }
        },
        Expr::Integer(i) => {
            reveal(ins1n);
            lemma_line(from, st.code, c0, c, Ins::Imm("mov"@, target, i.value as int))
        },
        Expr::Bool(b) => {
            reveal(ins1n);
            lemma_line(from, st.code, c0, c, Ins::Imm("mov"@, target, truth(b.value)))
        },
        _ => c,
    }
}

/// The first `k` arguments are in their registers.
pub open spec fn passed(env: Env, c: Cpu, args: Seq<Expr>, k: nat, vals: Vals) -> bool {
    forall|i: int|
        0 <= i < k ==> c.regs.contains_key(#[trigger] arg_reg(i)) && Some(c.regs[arg_reg(i)]) == meaning(args[i], vals)
}

/// The arguments have values.
pub open spec fn valued(env: Env, args: Seq<Expr>, k: nat, vals: Vals) -> bool {
    forall|i: int| 0 <= i < k ==> simple(#[trigger] args[i]) && meaning(args[i], vals) is Some
}

/// The arguments are put into their registers one by one.
proof fn lemma_direct(env: Env, ctx: Ctx, st: Code, args: Seq<Expr>, k: nat, vals: Vals, c: Cpu) -> (d: Cpu)
    requires
        k <= args.len(),
        k <= 6,
        plain_behind(args, k),
        valued(env, args, k, vals),
        c.at is None,
        ready(env, c, st.vars, vals),
    ensures
        direct_args(env, ctx, st, args, false, k) == st.with(direct_args(env, ctx, st, args, false, k).code),
        leads(st.code, direct_args(env, ctx, st, args, false, k).code, c, d),
        same_store(c, d),
        d.at is None,
        passed(env, d, args, k, vals),
    decreases k,
{
    lemma_arg_registers();
    if k == 0 {
        lemma_leads_self(st.code, c);
        c
    } else {
        let j = (k - 1) as nat;
        let d1 = lemma_direct(env, ctx, st, args, j, vals, c);
        let s1 = direct_args(env, ctx, st, args, false, j);
        let e = args[k - 1];
        let target = arg_reg(k - 1);
        lemma_holds(c, d1, st.vars, vals);
        assert(free_register(arg_reg(k - 1)));
        if k == 1 {
            lemma_expr(env, ctx, s1, e, target, vals, st.code, c, d1)
        } else {
            assert(plain_arg(args[k - 1]));
            let d2 = lemma_plain_arg(env, ctx, s1, e, target, vals, st.code, c, d1);
            lemma_chain(c, d1, d2);
            assert forall|i: int| 0 <= i < k implies d2.regs.contains_key(#[trigger] arg_reg(i)) && Some(
                d2.regs[arg_reg(i)],
            ) == meaning(args[i], vals) by {
                if i < k - 1 {
                    assert(arg_reg(i) != target);
                    assert(d1.regs.contains_key(arg_reg(i)));
                }
            }
            d2
        }
    }
}

/// The values of the first `k` arguments.
pub open spec fn values(env: Env, args: Seq<Expr>, k: nat, vals: Vals) -> Seq<int> {
    Seq::new(k, |i: int| meaning(args[i], vals)->Some_0)
}

/// The arguments are put onto the stack.
proof fn lemma_pushed(env: Env, ctx: Ctx, st: Code, args: Seq<Expr>, k: nat, vals: Vals, c: Cpu) -> (d: Cpu)
    requires
        k <= args.len(),
        valued(env, args, k, vals),
        c.at is None,
        ready(env, c, st.vars, vals),
    ensures
        pushed_args(env, ctx, st, args, k) == st.with(pushed_args(env, ctx, st, args, k).code),
        leads(st.code, pushed_args(env, ctx, st, args, k).code, c, d),
        same_store(c, Cpu { stack: c.stack, ..d }),
        d.stack == c.stack + values(env, args, k, vals),
        d.at is None,
    decreases k,
{
    lemma_free();
    lemma_fixed_text();
    lemma_single();
    if k == 0 {
        lemma_leads_self(st.code, c);
        assert(c.stack + values(env, args, 0, vals) =~= c.stack);
        c
    } else {
        let j = (k - 1) as nat;
        let d1 = lemma_pushed(env, ctx, st, args, j, vals, c);
        let s1 = pushed_args(env, ctx, st, args, j);
        let e = args[k - 1];
        let c1 = Cpu { stack: c.stack, ..d1 };
        lemma_holds(c, c1, st.vars, vals);
        assert(ready(env, d1, st.vars, vals)) by {
            assert forall|n: Seq<char>| #[trigger] vals.contains_key(n) implies st.vars.contains_key(
                n,
            ) && held(d1, st.vars[n]) == Some(vals[n]) by {
                assert(held(c1, st.vars[n]) == Some(vals[n]));
            }
        }
        let d2 = lemma_expr(env, ctx, s1, e, "rax"@, vals, st.code, c, d1);
        let s2 = expr_code(env, ctx, s1, e, "rax"@);
        let d3 = lemma_line(st.code, s2.code, c, d2, Ins::One("push"@, "rax"@));
        lemma_chain(c, c1, Cpu { stack: c.stack, ..d2 });
        assert(d3.stack =~= c.stack + values(env, args, k, vals));
        assert(same_store(c, Cpu { stack: c.stack, ..d3 }));
        d3
    }
}

/// The arguments are taken from the stack.
proof fn lemma_popped(env: Env, from: Seq<char>, out: Seq<char>, k: nat, c0: Cpu, c: Cpu) -> (d: Cpu)
    requires
        leads(from, out, c0, c),
        c.at is None,
        k <= 6,
        k <= c.stack.len(),
    ensures
        leads(from, pop_args(out, false, k), c0, d),
        d.at is None,
        d == (Cpu { regs: d.regs, stack: d.stack, ..c }),
        d.stack == c.stack.take(c.stack.len() - k),
        forall|i: int|
            0 <= i < k ==> d.regs.contains_key(#[trigger] arg_reg(i)) && d.regs[arg_reg(i)]
                == c.stack[c.stack.len() - k + i],
        forall|x: Seq<char>|
            (forall|i: int| 0 <= i < k ==> x != #[trigger] arg_reg(i)) ==> #[trigger] same_register(c, d, x),
    decreases k,
{
    reveal(pop_args);
    reveal(ins1);
    lemma_single();
    lemma_arg_registers();
    if k == 0 {
        assert(c.stack.take(c.stack.len() as int) =~= c.stack);
        c
    } else {
        let r = arg_reg(k - 1);
        let j = (k - 1) as nat;
        let i1 = Ins::One("pop"@, r);
        let d1 = lemma_line(from, out, c0, c, i1);
        let d = lemma_popped(env, from, out + ins_text(i1), j, c0, d1);
        assert(d.stack =~= c.stack.take(c.stack.len() - k));
        assert forall|i: int| 0 <= i < j implies r != #[trigger] arg_reg(i) by {}
        assert(same_register(d1, d, r));
        assert forall|x: Seq<char>|
            (forall|i: int| 0 <= i < k ==> x != #[trigger] arg_reg(i)) implies #[trigger] same_register(c, d, x) by {
            assert(x != arg_reg(k - 1));
            assert(same_register(d1, d, x));
        }
        assert forall|i: int| 0 <= i < k implies d.regs.contains_key(#[trigger] arg_reg(i)) && d.regs[arg_reg(i)]
            == c.stack[c.stack.len() - k + i] by {
            if i < j {
                assert(d.regs[arg_reg(i)] == d1.stack[d1.stack.len() - j + i]);
            }
        }
        d
    }
}

/// A call puts the value of each argument into the argument register of its
/// place, and leaves the variables alone.
pub proof fn law_calls_pass_their_arguments(env: Env, ctx: Ctx, st: Code, args: Seq<Expr>, k: nat, vals: Vals, c: Cpu)
    requires
        k <= args.len(),
        k <= 6,
        valued(env, args, k, vals),
        c.at is None,
        ready(env, c, st.vars, vals),
    ensures
        exists|d: Cpu| #[trigger]
            leads(st.code, args_code(env, ctx, st, args, false, k).code, c, d) && same_store(c, d) && d.at is None
                && passed(env, d, args, k, vals),
{
    lemma_arg_registers();
    if plain_behind(args, k) {
        let d = lemma_direct(env, ctx, st, args, k, vals, c);
        assert(leads(st.code, args_code(env, ctx, st, args, false, k).code, c, d));
    } else {
        let d1 = lemma_pushed(env, ctx, st, args, k, vals, c);
        let s1 = pushed_args(env, ctx, st, args, k);
        let d = lemma_popped(env, st.code, s1.code, k, c, d1);
        let c1 = Cpu { stack: c.stack, ..d1 };
        assert(d.stack =~= c.stack);
        assert forall|i: int| 0 <= i < 4 implies same_register(c, d, #[trigger] pool_reg(i)) by {
            assert(same_register(c, c1, pool_reg(i)));
            assert(same_register(d1, d, pool_reg(i)));
        }
        assert forall|i: int| 0 <= i < k implies d.regs.contains_key(#[trigger] arg_reg(i)) && Some(
            d.regs[arg_reg(i)],
        ) == meaning(args[i], vals) by {
            assert(d1.stack[d1.stack.len() - k + i] == values(env, args, k, vals)[i]);
            assert(simple(args[i]));
        }
        assert(leads(st.code, args_code(env, ctx, st, args, false, k).code, c, d));
    }
}

/// The first `k` parameters are in their places.
pub open spec fn bound(env: Env, st: Code, params: Seq<FnParam>, k: nat, c: Cpu, d: Cpu) -> bool {
    forall|i: int|
        0 <= i < k ==> st.vars.contains_key((#[trigger] params[i]).name.name@) && held(
            d,
            st.vars[params[i].name.name@],
        ) == Some(c.regs[arg_reg(i)])
}

/// The registers and slots of parameters.
pub open spec fn placed(env: Env, st: Code, params: Seq<FnParam>, k: nat, b: Code) -> bool {
    &&& forall|i: int|
        0 <= i < k ==> b.vars.contains_key((#[trigger] params[i]).name.name@)
            && b.vars[params[i].name.name@] == place_at(st, i)
    &&& b.off == off_at(st, k as int)
}

/// The parameters go to their places.
proof fn lemma_bind(env: Env, st: Code, params: Seq<FnParam>, k: nat, c: Cpu) -> (d: Cpu)
    requires
        k <= params.len(),
        params.len() <= 6,
        forall|i: int, j: int|
            #![trigger params[i], params[j]]
            0 <= i < j < params.len() ==> params[i].name.name@ != params[j].name.name@,
        c.at is None,
        st.off > i32::MIN + 16,
        forall|i: int| 0 <= i < 6 ==> c.regs.contains_key(#[trigger] arg_reg(i)),
    ensures
        ({
            let b = bind_args(st, params, k);
            &&& leads(st.code, b.code, c, d)
            &&& d.at is None
            &&& placed(env, st, params, k, b)
            &&& bound(env, b, params, k, c, d)
            &&& forall|i: int|
                0 <= i < 6 ==> d.regs.contains_key(#[trigger] arg_reg(i)) && d.regs[arg_reg(i)]
                    == c.regs[arg_reg(i)]
        }),
    decreases k,
{
    reveal(bind_args);
    lemma_arg_registers();
    if k == 0 {
        lemma_leads_self(st.code, c);
        c
    } else {
        let j = (k - 1) as nat;
        let d1 = lemma_bind(env, st, params, j, c);
        let p = bind_args(st, params, j);
        let b = bind_args(st, params, k);
        reveal(ins2);
        reveal(store_slot);
        lemma_operations();
        lemma_pool();
        let r = arg_reg(k - 1);
        assert(c.regs.contains_key(arg_reg(k - 1)));
        let ins = if k <= 4 {
            Ins::Two("mov"@, pool_reg(k - 1), r)
        } else {
            Ins::Store(down8(p.off) as int, r)
        };
        let d = lemma_line(st.code, p.code, c, d1, ins);
        assert(b.off == off_at(st, k as int));
        assert forall|i: int| 0 <= i < k implies b.vars.contains_key(
            (#[trigger] params[i]).name.name@,
        ) && b.vars[params[i].name.name@] == place_at(st, i) && held(d, b.vars[params[i].name.name@])
            == Some(c.regs[arg_reg(i)]) by {
            if i < k - 1 {
                assert(params[i].name.name@ != params[k - 1].name.name@);
                assert(held(d1, p.vars[params[i].name.name@]) == Some(c.regs[arg_reg(i)]));
            } else {
                assert(c.regs.contains_key(arg_reg(i)));
            }
        }
        d
    }
}

/// A function takes its parameters from the argument registers: behind its entry
/// each parameter is in its place, with the value of the argument register of its
/// place. So the value that a call passes first is the first parameter, and so on.
pub proof fn law_parameters_hold_their_arguments(env: Env, st: Code, params: Seq<FnParam>, c: Cpu)
    requires
        params.len() <= 6,
        forall|i: int, j: int|
            #![trigger params[i], params[j]]
            0 <= i < j < params.len() ==> params[i].name.name@ != params[j].name.name@,
        c.at is None,
        st.off > i32::MIN + 16,
        forall|i: int| 0 <= i < 6 ==> c.regs.contains_key(#[trigger] arg_reg(i)),
    ensures
        ({
            let b = bind_args(st, params, params.len());
            exists|d: Cpu| #[trigger]
                leads(st.code, b.code, c, d) && d.at is None && bound(
                    env,
                    b,
                    params,
                    params.len(),
                    c,
                    d,
                )
        }),
{
    let d = lemma_bind(env, st, params, params.len(), c);
    assert(leads(st.code, bind_args(st, params, params.len()).code, c, d));
}

} // verus!
