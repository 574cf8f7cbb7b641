//! How the AArch64 and ARM32 text of calls and functions passes arguments.
//!
//! The laws say that an argument is where the function that is called takes its
//! parameter from.

use vstd::prelude::*;
use crate::ast::{Expr, FnParam};
use crate::cstar::raw::common::{plain_arg, plain_behind, VarLoc};
use crate::cstar::raw::flow::{simple, Vals};
use crate::cstar::raw::arm_flow::ready;
use crate::cstar::raw::arm_model::{
    arg_len, arg_reg, args_code, bind_args, Code, direct_args, expr_code, pool_len, pool_reg,
    pop_args, pop_reg, push_reg, pushed_args, reg_prefix, ret, tmp2,
};
use crate::cstar::raw::arm_run::{
    Cpu, free_register, held, Ins, ins_text, leads, lemma_chain, lemma_expr, lemma_free,
    lemma_holds, lemma_leads_self, lemma_line, lemma_load_imm, lemma_load_var, lemma_moves,
    lemma_numbered, lemma_numbers, lemma_pool, meaning, same_register, same_store, width,
};
use crate::cstar::raw::lines::ins2;
use crate::cstar::raw::model::{Ctx, Env};

verus! {

/// The register of the first argument is the return register.
proof fn lemma_first_arg(a64: bool)
    ensures
        arg_reg(a64, 0) == ret(a64),
        ret(a64) != tmp2(a64),
{
    reveal(arg_reg);
    lemma_numbers(a64);
    lemma_pool(a64);
}

/// The registers of arguments differ from each other and from those of variables.
proof fn lemma_arg_registers(a64: bool)
    ensures
        forall|i: int, j: int|
            #![trigger arg_reg(a64, i), arg_reg(a64, j)]
            0 <= i < j < arg_len(a64) ==> arg_reg(a64, i) != arg_reg(a64, j),
        forall|i: int, j: int|
            #![trigger arg_reg(a64, i), pool_reg(a64, j)]
            0 <= i < arg_len(a64) && 0 <= j < pool_len(a64) ==> arg_reg(a64, i) != pool_reg(a64, j),
        forall|i: int| 0 <= i < arg_len(a64) ==> free_register(a64, #[trigger] arg_reg(a64, i)),
{
    reveal(arg_reg);
    reveal(pool_reg);
    reveal(reg_prefix);
    lemma_numbers(a64);
    let base = if a64 {
        19int
    } else {
        4
    };
    let frame = if a64 {
        29nat
    } else {
        11
    };
    assert forall|i: int, j: int|
        #![trigger arg_reg(a64, i), arg_reg(a64, j)]
        0 <= i < j < arg_len(a64) implies arg_reg(a64, i) != arg_reg(a64, j) by {
        lemma_numbered(a64, i as nat, j as nat);
    }
    assert forall|i: int, j: int|
        #![trigger arg_reg(a64, i), pool_reg(a64, j)]
        0 <= i < arg_len(a64) && 0 <= j < pool_len(a64) implies arg_reg(a64, i) != pool_reg(a64, j) by {
        lemma_numbered(a64, i as nat, (j + base) as nat);
    }
    assert forall|i: int| 0 <= i < arg_len(a64) implies free_register(
        a64,
        #[trigger] arg_reg(a64, i),
    ) by {
        lemma_numbered(a64, i as nat, frame);
    }
}

/// An argument that needs no other register.
proof fn lemma_plain_arg(env: Env, ctx: Ctx, st: Code, e: Expr, target: Seq<char>, vals: Vals, from: Seq<char>, c0: Cpu, c: Cpu) -> (d: Cpu)
    requires
        leads(from, st.code, c0, c),
        simple(e),
        plain_arg(e),
        c.at is None,
        ready(env, c, st.vars, vals),
        meaning(e, vals, width(env.a64())) is Some,
        free_register(env.a64(), target),
    ensures
        expr_code(env, ctx, st, e, target) == st.with(expr_code(env, ctx, st, e, target).code),
        leads(from, expr_code(env, ctx, st, e, target).code, c0, d),
        d == c.set(target, meaning(e, vals, width(env.a64()))->Some_0),
        same_store(c, d),
{
    let a = env.a64();
    match e {
        Expr::Integer(i) => lemma_load_imm(from, st.code, a, target, i.value, c0, c),
        Expr::Bool(b) => lemma_load_imm(
            from,
            st.code,
            a,
            target,
            if b.value {
                1
            } else {
                0
            },
            c0,
            c,
        ),
        Expr::Identifier(id) => lemma_load_var(from, st.code, a, st.vars[id.name@], target, c0, c),
        _ => c,
    }
}

/// The first `k` arguments are in their registers.
pub open spec fn passed(env: Env, c: Cpu, args: Seq<Expr>, k: nat, vals: Vals) -> bool {
    forall|i: int|
        0 <= i < k ==> c.regs.contains_key(#[trigger] arg_reg(env.a64(), i)) && Some(c.regs[arg_reg(env.a64(), i)]) == meaning(args[i], vals, width(env.a64()))
}

/// The arguments have values.
pub open spec fn valued(env: Env, args: Seq<Expr>, k: nat, vals: Vals) -> bool {
    forall|i: int| 0 <= i < k ==> simple(#[trigger] args[i]) && meaning(args[i], vals, width(env.a64())) is Some
}

/// The arguments are put into their registers one by one.
proof fn lemma_direct(env: Env, ctx: Ctx, st: Code, args: Seq<Expr>, k: nat, vals: Vals, c: Cpu) -> (d: Cpu)
    requires
        k <= args.len(),
        k <= arg_len(env.a64()),
        plain_behind(args, k),
        valued(env, args, k, vals),
        c.at is None,
        ready(env, c, st.vars, vals),
    ensures
        direct_args(env, ctx, st, args, k) == st.with(direct_args(env, ctx, st, args, k).code),
        leads(st.code, direct_args(env, ctx, st, args, k).code, c, d),
        same_store(c, d),
        d.at is None,
        passed(env, d, args, k, vals),
    decreases k,
{
    lemma_arg_registers(env.a64());
    if k == 0 {
        lemma_leads_self(st.code, c);
        c
    } else {
        let j = (k - 1) as nat;
        let d1 = lemma_direct(env, ctx, st, args, j, vals, c);
        let s1 = direct_args(env, ctx, st, args, j);
        let e = args[k - 1];
        let target = arg_reg(env.a64(), k - 1);
        lemma_holds(c, d1, st.vars, vals);
        assert(free_register(env.a64(), arg_reg(env.a64(), k - 1)));
        if k == 1 {
            lemma_first_arg(env.a64());
            lemma_expr(env, ctx, s1, e, target, vals, st.code, c, d1)
        } else {
            assert(plain_arg(args[k - 1]));
            let d2 = lemma_plain_arg(env, ctx, s1, e, target, vals, st.code, c, d1);
            lemma_chain(c, d1, d2);
            assert forall|i: int| 0 <= i < k implies d2.regs.contains_key(#[trigger] arg_reg(env.a64(), i)) && Some(
                d2.regs[arg_reg(env.a64(), i)],
            ) == meaning(args[i], vals, width(env.a64())) by {
                if i < k - 1 {
                    assert(arg_reg(env.a64(), i) != target);
                    assert(d1.regs.contains_key(arg_reg(env.a64(), i)));
                }
            }
            d2
        }
    }
}

/// The values of the first `k` arguments.
pub open spec fn values(env: Env, args: Seq<Expr>, k: nat, vals: Vals) -> Seq<int> {
    Seq::new(k, |i: int| meaning(args[i], vals, width(env.a64()))->Some_0)
}

/// The arguments are put onto the stack.
proof fn lemma_pushed(env: Env, ctx: Ctx, st: Code, args: Seq<Expr>, k: nat, vals: Vals, c: Cpu) -> (d: Cpu)
    requires
        k <= args.len(),
        valued(env, args, k, vals),
        c.at is None,
        ready(env, c, st.vars, vals),
    ensures
        pushed_args(env, ctx, st, args, k) == st.with(pushed_args(env, ctx, st, args, k).code),
        leads(st.code, pushed_args(env, ctx, st, args, k).code, c, d),
        same_store(c, Cpu { stack: c.stack, ..d }),
        d.stack == c.stack + values(env, args, k, vals),
        d.at is None,
    decreases k,
{
    lemma_free(env.a64());
    lemma_pool(env.a64());
    reveal(push_reg);
    if k == 0 {
        lemma_leads_self(st.code, c);
        assert(c.stack + values(env, args, 0, vals) =~= c.stack);
        c
    } else {
        let j = (k - 1) as nat;
        let d1 = lemma_pushed(env, ctx, st, args, j, vals, c);
        let s1 = pushed_args(env, ctx, st, args, j);
        let e = args[k - 1];
        let c1 = Cpu { stack: c.stack, ..d1 };
        lemma_holds(c, c1, st.vars, vals);
        assert(ready(env, d1, st.vars, vals)) by {
            assert forall|n: Seq<char>| #[trigger] vals.contains_key(n) implies st.vars.contains_key(
                n,
            ) && held(d1, st.vars[n]) == Some(vals[n]) by {
                assert(held(c1, st.vars[n]) == Some(vals[n]));
            }
        }
        let d2 = lemma_expr(env, ctx, s1, e, ret(env.a64()), vals, st.code, c, d1);
        let s2 = expr_code(env, ctx, s1, e, ret(env.a64()));
        let d3 = lemma_line(st.code, s2.code, c, d2, Ins::Push(env.a64(), ret(env.a64())));
        lemma_chain(c, c1, Cpu { stack: c.stack, ..d2 });
        assert(d3.stack =~= c.stack + values(env, args, k, vals));
        assert(same_store(c, Cpu { stack: c.stack, ..d3 }));
        d3
    }
}

/// The arguments are taken from the stack.
proof fn lemma_popped(env: Env, from: Seq<char>, out: Seq<char>, k: nat, c0: Cpu, c: Cpu) -> (d: Cpu)
    requires
        leads(from, out, c0, c),
        c.at is None,
        c.a64 == env.a64(),
        k <= arg_len(env.a64()),
        k <= c.stack.len(),
    ensures
        leads(from, pop_args(out, env.a64(), k), c0, d),
        d.at is None,
        d == (Cpu { regs: d.regs, stack: d.stack, ..c }),
        d.stack == c.stack.take(c.stack.len() - k),
        forall|i: int|
            0 <= i < k ==> d.regs.contains_key(#[trigger] arg_reg(env.a64(), i)) && d.regs[arg_reg(env.a64(), i)]
                == c.stack[c.stack.len() - k + i],
        forall|x: Seq<char>|
            (forall|i: int| 0 <= i < k ==> x != #[trigger] arg_reg(env.a64(), i)) ==> #[trigger] same_register(c, d, x),
    decreases k,
{
    reveal(pop_args);
    reveal(pop_reg);
    lemma_arg_registers(env.a64());
    if k == 0 {
        assert(c.stack.take(c.stack.len() as int) =~= c.stack);
        c
    } else {
        let r = arg_reg(env.a64(), k - 1);
        let j = (k - 1) as nat;
        let i1 = Ins::Pop(env.a64(), r);
        let d1 = lemma_line(from, out, c0, c, i1);
        let d = lemma_popped(env, from, out + ins_text(i1), j, c0, d1);
        assert(d.stack =~= c.stack.take(c.stack.len() - k));
        assert forall|i: int| 0 <= i < j implies r != #[trigger] arg_reg(env.a64(), i) by {}
        assert(same_register(d1, d, r));
        assert forall|x: Seq<char>|
            (forall|i: int| 0 <= i < k ==> x != #[trigger] arg_reg(env.a64(), i)) implies #[trigger] same_register(c, d, x) by {
            assert(x != arg_reg(env.a64(), k - 1));
            assert(same_register(d1, d, x));
        }
        assert forall|i: int| 0 <= i < k implies d.regs.contains_key(#[trigger] arg_reg(env.a64(), i)) && d.regs[arg_reg(env.a64(), i)]
            == c.stack[c.stack.len() - k + i] by {
            if i < j {
                assert(d.regs[arg_reg(env.a64(), i)] == d1.stack[d1.stack.len() - j + i]);
            }
        }
        d
    }
}

/// A call puts the value of each argument into the argument register of its
/// place, and leaves the variables alone.
pub proof fn law_calls_pass_their_arguments(env: Env, ctx: Ctx, st: Code, args: Seq<Expr>, k: nat, vals: Vals, c: Cpu)
    requires
        k <= args.len(),
        k <= arg_len(env.a64()),
        valued(env, args, k, vals),
        c.at is None,
        ready(env, c, st.vars, vals),
    ensures
        exists|d: Cpu| #[trigger]
            leads(st.code, args_code(env, ctx, st, args, k).code, c, d) && same_store(c, d) && d.at is None
                && passed(env, d, args, k, vals),
{
    lemma_arg_registers(env.a64());
    if plain_behind(args, k) {
        let d = lemma_direct(env, ctx, st, args, k, vals, c);
        assert(leads(st.code, args_code(env, ctx, st, args, k).code, c, d));
    } else {
        let d1 = lemma_pushed(env, ctx, st, args, k, vals, c);
        let s1 = pushed_args(env, ctx, st, args, k);
        let d = lemma_popped(env, st.code, s1.code, k, c, d1);
        let c1 = Cpu { stack: c.stack, ..d1 };
        assert(d.stack =~= c.stack);
        assert forall|i: int| 0 <= i < pool_len(env.a64()) implies same_register(c, d, #[trigger] pool_reg(env.a64(), i)) by {
            assert(same_register(c, c1, pool_reg(env.a64(), i)));
            assert(same_register(d1, d, pool_reg(env.a64(), i)));
        }
        assert forall|i: int| 0 <= i < k implies d.regs.contains_key(#[trigger] arg_reg(env.a64(), i)) && Some(
            d.regs[arg_reg(env.a64(), i)],
        ) == meaning(args[i], vals, width(env.a64())) by {
            assert(d1.stack[d1.stack.len() - k + i] == values(env, args, k, vals)[i]);
            assert(simple(args[i]));
        }
        assert(leads(st.code, args_code(env, ctx, st, args, k).code, c, d));
    }
}

/// The first `k` parameters are in their places.
pub open spec fn bound(env: Env, st: Code, params: Seq<FnParam>, k: nat, c: Cpu, d: Cpu) -> bool {
    forall|i: int|
        0 <= i < k ==> st.vars.contains_key((#[trigger] params[i]).name.name@) && held(
            d,
            st.vars[params[i].name.name@],
        ) == Some(c.regs[arg_reg(env.a64(), i)])
}

/// The registers and slots of parameters.
pub open spec fn placed(env: Env, st: Code, params: Seq<FnParam>, k: nat, b: Code) -> bool {
    &&& forall|i: int|
        0 <= i < k ==> b.vars.contains_key((#[trigger] params[i]).name.name@)
            && b.vars[params[i].name.name@] == VarLoc::Reg(i as usize)

}

/// The parameters go to their places.
proof fn lemma_bind(env: Env, st: Code, params: Seq<FnParam>, k: nat, c: Cpu) -> (d: Cpu)
    requires
        k <= params.len(),
        params.len() <= arg_len(env.a64()),
        forall|i: int, j: int|
            #![trigger params[i], params[j]]
            0 <= i < j < params.len() ==> params[i].name.name@ != params[j].name.name@,
        c.at is None,
        c.a64 == env.a64(),
        forall|i: int| 0 <= i < arg_len(env.a64()) ==> c.regs.contains_key(#[trigger] arg_reg(env.a64(), i)),
    ensures
        ({
            let b = bind_args(env.a64(), st, params, k);
            &&& leads(st.code, b.code, c, d)
            &&& d.at is None
            &&& placed(env, st, params, k, b)
            &&& bound(env, b, params, k, c, d)
            &&& forall|i: int|
                0 <= i < arg_len(env.a64()) ==> d.regs.contains_key(#[trigger] arg_reg(env.a64(), i)) && d.regs[arg_reg(env.a64(), i)]
                    == c.regs[arg_reg(env.a64(), i)]
            &&& d.a64 == c.a64
        }),
    decreases k,
{
    reveal(bind_args);
    lemma_arg_registers(env.a64());
    if k == 0 {
        lemma_leads_self(st.code, c);
        c
    } else {
        let j = (k - 1) as nat;
        let d1 = lemma_bind(env, st, params, j, c);
        let p = bind_args(env.a64(), st, params, j);
        let b = bind_args(env.a64(), st, params, k);
        reveal(ins2);
        lemma_moves();
        lemma_pool(env.a64());
        let r = arg_reg(env.a64(), k - 1);
        assert(c.regs.contains_key(arg_reg(env.a64(), k - 1)));
        let d = lemma_line(
            st.code,
            p.code,
            c,
            d1,
            Ins::Two("mov"@, pool_reg(env.a64(), k - 1), r),
        );
        assert forall|i: int| 0 <= i < k implies b.vars.contains_key(
            (#[trigger] params[i]).name.name@,
        ) && b.vars[params[i].name.name@] == VarLoc::Reg(i as usize) && held(d, b.vars[params[i].name.name@])
            == Some(c.regs[arg_reg(env.a64(), i)]) by {
            if i < k - 1 {
                assert(params[i].name.name@ != params[k - 1].name.name@);
                assert(held(d1, p.vars[params[i].name.name@]) == Some(c.regs[arg_reg(env.a64(), i)]));
            } else {
                assert(c.regs.contains_key(arg_reg(env.a64(), i)));
            }
        }
        d
    }
}

/// A function takes its parameters from the argument registers: behind its entry
/// each parameter is in its place, with the value of the argument register of its
/// place. So the value that a call passes first is the first parameter, and so on.
pub proof fn law_parameters_hold_their_arguments(env: Env, st: Code, params: Seq<FnParam>, c: Cpu)
    requires
        params.len() <= arg_len(env.a64()),
        forall|i: int, j: int|
            #![trigger params[i], params[j]]
            0 <= i < j < params.len() ==> params[i].name.name@ != params[j].name.name@,
        c.at is None,
        c.a64 == env.a64(),
        forall|i: int| 0 <= i < arg_len(env.a64()) ==> c.regs.contains_key(#[trigger] arg_reg(env.a64(), i)),
    ensures
        ({
            let b = bind_args(env.a64(), st, params, params.len());
            exists|d: Cpu| #[trigger]
                leads(st.code, b.code, c, d) && d.at is None && bound(
                    env,
                    b,
                    params,
                    params.len(),
                    c,
                    d,
                )
        }),
{
    let d = lemma_bind(env, st, params, params.len(), c);
    assert(leads(st.code, bind_args(env.a64(), st, params, params.len()).code, c, d));
}

} // verus!
