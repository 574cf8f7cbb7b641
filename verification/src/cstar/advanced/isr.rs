//! `@isr_group`: worst-case execution times and rate-monotonic priorities.

use vstd::arithmetic::div_mod::{lemma_add_mod_noop, lemma_mul_mod_noop_right, lemma_small_mod};
use vstd::prelude::*;
use crate::ast::{Annotation, AnnotationArg, Expr, FnDef, Stmt};
use crate::cstar::annotations::{is_named, named};
use crate::text::{dec, push_dec, text};

verus! {

/// The configuration of an interrupt group.
#[derive(Debug, Clone, Copy, PartialEq, Eq, Structural)]
pub struct IsrGroupConfig {
    pub budget_us: u32,
    pub period_us: u32,
    pub priority: Option<u32>,
}

/// The configuration that stands where nothing is given.
pub open spec fn default_group() -> IsrGroupConfig {
    IsrGroupConfig { budget_us: 100, period_us: 1000, priority: None }
}

impl Default for IsrGroupConfig {
    fn default() -> (r: Self)
        ensures
            r == default_group(),
    {
        IsrGroupConfig { budget_us: 100, period_us: 1000, priority: None }
    }
}

/// The configuration with what an argument says.
pub open spec fn group_arg(c: IsrGroupConfig, a: AnnotationArg) -> IsrGroupConfig {
    match a.value {
        Expr::Integer(i) => if named(a, "budget_us"@) {
            IsrGroupConfig { budget_us: i.value as u32, ..c }
        } else if named(a, "period_us"@) {
            IsrGroupConfig { period_us: i.value as u32, ..c }
        } else if named(a, "priority"@) {
            IsrGroupConfig { priority: Some(i.value as u32), ..c }
        } else {
            c
        },
        _ => c,
    }
}

/// The configuration that the first `k` arguments give.
pub open spec fn group_args(args: Seq<AnnotationArg>, k: nat) -> IsrGroupConfig
    decreases k,
{
    if k == 0 || k > args.len() {
        default_group()
    } else {
        group_arg(group_args(args, (k - 1) as nat), args[k - 1])
    }
}

/// Reads an `@isr_group` annotation.
pub fn parse_isr_group_config(ann: &Annotation) -> (c: IsrGroupConfig)
    ensures
        c == group_args(ann.arguments@, ann.arguments@.len()),
{
    let mut c = IsrGroupConfig::default();
    let args = &ann.arguments;
    let mut k: usize = 0;
    while k < args.len()
        invariant
            args@ == ann.arguments@,
            k <= args@.len(),
            c == group_args(args@, k as nat),
        decreases args@.len() - k,
    {
        let a = &args[k];
        match &a.value {
            Expr::Integer(i) => {
                if is_named(a, "budget_us") {
                    c.budget_us = i.value as u32;
                } else if is_named(a, "period_us") {
                    c.period_us = i.value as u32;
                } else if is_named(a, "priority") {
                    c.priority = Some(i.value as u32);
                }
            },
            _ => {},
        }
        k = k + 1;
    }
    c
}

// ---------------------------------------------------------------------------
// Worst-case execution time
// ---------------------------------------------------------------------------

/// The approximate number of instructions of a statement.
pub open spec fn stmt_cost(s: Stmt) -> nat
    decreases s, 0nat,
{
    match s {
        Stmt::Assign(_) => 3,
        Stmt::Return(_) => 2,
        Stmt::Expr(_) => 5,
        Stmt::If(i) => 2 + body_cost(i.then_body@, i.then_body@.len()) + chain_cost(
            i.elif_chain@,
            i.elif_chain@.len(),
        ) + (match i.else_body {
            Some(b) => body_cost(b@, b@.len()),
            None => 0,
        }),
        Stmt::While(w) => 3 + body_cost(w.body@, w.body@.len()),
        Stmt::ForIn(f) => 5 + body_cost(f.body@, f.body@.len()),
        Stmt::ForRange(f) => 4 + body_cost(f.body@, f.body@.len()),
        Stmt::Throw(_) => 2,
        Stmt::Println(_) => 5,
        Stmt::Paste => 3,
        _ => 1,
    }
}

/// The approximate number of instructions of the first `k` statements.
pub open spec fn body_cost(ss: Seq<Stmt>, k: nat) -> nat
    decreases ss, k,
{
    if k == 0 || k > ss.len() {
        0
    } else {
        body_cost(ss, (k - 1) as nat) + stmt_cost(ss[k - 1])
    }
}

/// The approximate number of instructions of the first `k` branches.
pub open spec fn chain_cost(cs: Seq<(Expr, Vec<Stmt>)>, k: nat) -> nat
    decreases cs, k,
{
    if k == 0 || k > cs.len() {
        0
    } else {
        chain_cost(cs, (k - 1) as nat) + body_cost(cs[k - 1].1@, cs[k - 1].1@.len())
    }
}

/// The sum of two counts that are kept modulo 2^32.
fn added(a: u64, b: u64, Ghost(x): Ghost<nat>, Ghost(y): Ghost<nat>) -> (r: u64)
    requires
        a == x % 0x1_0000_0000,
        b == y % 0x1_0000_0000,
    ensures
        r == (x + y) % 0x1_0000_0000,
{
    proof {
        lemma_add_mod_noop(x as int, y as int, 0x1_0000_0000);
    }
    (a + b) % 0x1_0000_0000
}

/// The number of instructions of a statement, modulo 2^32.
fn count_stmt_instructions(s: &Stmt) -> (r: u64)
    ensures
        r == stmt_cost(*s) % 0x1_0000_0000,
    decreases s, 2nat,
{
    match s {
        Stmt::Assign(_) => 3,
        Stmt::Return(_) => 2,
        Stmt::Expr(_) => 5,
        Stmt::If(i) => {
            let a: u64 = count_instructions(&i.then_body);
            let b: u64 = count_chain(&i.elif_chain);
            let c: u64 = match &i.else_body {
                Some(e) => count_instructions(e),
                None => 0,
            };
            let ghost x = body_cost(i.then_body@, i.then_body@.len());
            let ghost y = chain_cost(i.elif_chain@, i.elif_chain@.len());
            let ghost z: nat = match &i.else_body {
                Some(e) => body_cost(e@, e@.len()),
                None => 0,
            };
            let s1: u64 = added(2, a, Ghost(2), Ghost(x));
            let s2: u64 = added(s1, b, Ghost(2 + x), Ghost(y));
            added(s2, c, Ghost(2 + x + y), Ghost(z))
        },
        Stmt::While(w) => {
            let a: u64 = count_instructions(&w.body);
            added(3, a, Ghost(3), Ghost(body_cost(w.body@, w.body@.len())))
        },
        Stmt::ForIn(f) => {
            let a: u64 = count_instructions(&f.body);
            added(5, a, Ghost(5), Ghost(body_cost(f.body@, f.body@.len())))
        },
        Stmt::ForRange(f) => {
            let a: u64 = count_instructions(&f.body);
            added(4, a, Ghost(4), Ghost(body_cost(f.body@, f.body@.len())))
        },
        Stmt::Throw(_) => 2,
        Stmt::Println(_) => 5,
        Stmt::Paste => 3,
        _ => 1,
    }
}

/// The number of instructions of statements, modulo 2^32.
fn count_instructions(ss: &Vec<Stmt>) -> (r: u64)
    ensures
        r == body_cost(ss@, ss@.len()) % 0x1_0000_0000,
    decreases ss@, 0nat,
{
    let mut total: u64 = 0;
    let mut k: usize = 0;
    while k < ss.len()
        invariant
            k <= ss@.len(),
            total == body_cost(ss@, k as nat) % 0x1_0000_0000,
        decreases ss@.len() - k,
    {
        let c: u64 = count_stmt_instructions(&ss[k]);
        total = added(
            total,
            c,
            Ghost(body_cost(ss@, k as nat)),
            Ghost(stmt_cost(ss@[k as int])),
        );
        k = k + 1;
    }
    total
}

/// The number of instructions of branches, modulo 2^32.
fn count_chain(cs: &Vec<(Expr, Vec<Stmt>)>) -> (r: u64)
    ensures
        r == chain_cost(cs@, cs@.len()) % 0x1_0000_0000,
    decreases cs@, 1nat,
{
    let mut total: u64 = 0;
    let mut k: usize = 0;
    while k < cs.len()
        invariant
            k <= cs@.len(),
            total == chain_cost(cs@, k as nat) % 0x1_0000_0000,
        decreases cs@.len() - k,
    {
        let c: u64 = count_instructions(&cs[k].1);
        total = added(
            total,
            c,
            Ghost(chain_cost(cs@, k as nat)),
            Ghost(body_cost(cs@[k as int].1@, cs@[k as int].1@.len())),
        );
        k = k + 1;
    }
    total
}

/// The microseconds that a function takes at most, at two cycles to an
/// instruction and a clock of `clock` megahertz (at least one); the cycles are
/// counted in 32 bits.
pub open spec fn wcet_us(f: FnDef, clock: u32) -> u32 {
    let cycles = (2 * body_cost(f.body@, f.body@.len())) % 0x1_0000_0000;
    (cycles / (if clock < 1 {
        1
    } else {
        clock as nat
    })) as u32
}

/// Estimates the worst-case execution time of a function in microseconds.
pub fn estimate_wcet(fn_def: &FnDef, clock_mhz: u32) -> (r: u32)
    ensures
        r == wcet_us(*fn_def, clock_mhz),
{
    let count: u64 = count_instructions(&fn_def.body);
    let cycles: u64 = (count * 2) % 0x1_0000_0000;
    proof {
        lemma_mul_mod_noop_right(
            2,
            body_cost(fn_def.body@, fn_def.body@.len()) as int,
            0x1_0000_0000,
        );
    }
    let clock: u64 = if clock_mhz < 1 {
        1
    } else {
        clock_mhz as u64
    };
    assert(cycles / clock <= cycles) by (nonlinear_arith)
        requires
            clock >= 1,
    ;
    (cycles / clock) as u32
}

/// Checks the worst-case execution time of a function against its budget.
pub fn check_wcet(fn_def: &FnDef, config: &IsrGroupConfig, clock_mhz: u32) -> (r: Result<
    (),
    String,
>)
    ensures
        match r {
            Ok(_) => wcet_us(*fn_def, clock_mhz) <= config.budget_us,
            Err(m) => wcet_us(*fn_def, clock_mhz) > config.budget_us && m@ == "WCET violation: function '"@ + fn_def.name.name@ + "' estimated "@ + dec(wcet_us(*fn_def, clock_mhz) as nat) + "µs, budget "@ + dec(config.budget_us as nat) + "µs"@,
        },
{
    let wcet: u32 = estimate_wcet(fn_def, clock_mhz);
    if wcet > config.budget_us {
        let mut m = text("WCET violation: function '");
        m.append(fn_def.name.name.as_str());
        m.append("' estimated ");
        push_dec(&mut m, wcet as u64);
        m.append("µs, budget ");
        push_dec(&mut m, config.budget_us as u64);
        m.append("µs");
        Err(m)
    } else {
        Ok(())
    }
}

// ---------------------------------------------------------------------------
// Priorities
// ---------------------------------------------------------------------------

/// What the groups of a list are.
pub open spec fn groups_of(v: Seq<(String, IsrGroupConfig)>) -> Seq<(Seq<char>, IsrGroupConfig)> {
    Seq::new(v.len(), |i: int| (v[i].0@, v[i].1))
}

/// A list sorted by period with `x` behind all whose periods are not longer.
pub open spec fn insert_group(
    s: Seq<(Seq<char>, IsrGroupConfig)>,
    x: (Seq<char>, IsrGroupConfig),
) -> Seq<(Seq<char>, IsrGroupConfig)>
    decreases s.len(),
{
    if s.len() > 0 && x.1.period_us < s.last().1.period_us {
        insert_group(s.drop_last(), x).push(s.last())
    } else {
        s.push(x)
    }
}

/// The groups sorted by period; those of the same period keep their order.
pub open spec fn by_period(s: Seq<(Seq<char>, IsrGroupConfig)>) -> Seq<(Seq<char>, IsrGroupConfig)>
    decreases s.len(),
{
    if s.len() == 0 {
        Seq::empty()
    } else {
        insert_group(by_period(s.drop_last()), s.last())
    }
}

/// The groups with their positions as priorities.
pub open spec fn ranked(s: Seq<(Seq<char>, IsrGroupConfig)>) -> Seq<(Seq<char>, IsrGroupConfig)> {
    Seq::new(
        s.len(),
        |i: int| (s[i].0, IsrGroupConfig { priority: Some(i as usize as u32), ..s[i].1 }),
    )
}

/// Adds a group behind all whose periods are not longer.
fn insert_by_period(out: &mut Vec<(String, IsrGroupConfig)>, n: String, c: IsrGroupConfig)
    ensures
        groups_of(final(out)@) == insert_group(groups_of(old(out)@), (n@, c)),
{
    let ghost all = groups_of(out@);
    let ghost x = (n@, c);
    let mut i: usize = out.len();
    assert(all.take(i as int) =~= all);
    assert(insert_group(all.take(i as int), x) + all.skip(i as int) =~= insert_group(all, x));
    while i > 0 && c.period_us < out[i - 1].1.period_us
        invariant
            i <= out@.len(),
            out@ == old(out)@,
            all == groups_of(out@),
            x == (n@, c),
            insert_group(all.take(i as int), x) + all.skip(i as int) == insert_group(all, x),
        decreases i,
    {
        assert(all.take(i as int).last() == all[i - 1]);
        assert(all.take(i as int).drop_last() =~= all.take(i - 1));
        assert(insert_group(all.take(i - 1), x) + all.skip(i - 1) =~= insert_group(
            all.take(i as int),
            x,
        ) + all.skip(i as int));
        i = i - 1;
    }
    assert(i > 0 ==> all.take(i as int).last() == all[i - 1]);
    assert(insert_group(all.take(i as int), x) == all.take(i as int).push(x));
    out.insert(i, (n, c));
    assert(groups_of(out@) =~= all.take(i as int).push(x) + all.skip(i as int));
}

/// Assigns rate-monotonic priorities: the groups come out sorted by period, and
/// the shorter the period, the higher the priority (the lower the number).
pub fn assign_priorities(groups: &mut Vec<(String, IsrGroupConfig)>)
    ensures
        groups_of(final(groups)@) == ranked(by_period(groups_of(old(groups)@))),
{
    let ghost all = groups_of(groups@);
    let mut sorted: Vec<(String, IsrGroupConfig)> = Vec::new();
    let mut i: usize = 0;
    assert(all.take(0) =~= Seq::<(Seq<char>, IsrGroupConfig)>::empty());
    assert(groups_of(sorted@) =~= Seq::<(Seq<char>, IsrGroupConfig)>::empty());
    while i < groups.len()
        invariant
            i <= groups@.len(),
            groups@ == old(groups)@,
            all == groups_of(groups@),
            groups_of(sorted@) == by_period(all.take(i as int)),
        decreases groups@.len() - i,
    {
        assert(all.take(i + 1).drop_last() =~= all.take(i as int));
        insert_by_period(&mut sorted, groups[i].0.clone(), groups[i].1);
        i = i + 1;
    }
    assert(all.take(i as int) =~= all);
    let mut out: Vec<(String, IsrGroupConfig)> = Vec::new();
    let mut k: usize = 0;
    while k < sorted.len()
        invariant
            k <= sorted@.len(),
            out@.len() == k,
            forall|j: int|
                0 <= j < k ==> (#[trigger] out@[j]).0@ == sorted@[j].0@ && out@[j].1 == (
                IsrGroupConfig { priority: Some(j as usize as u32), ..sorted@[j].1 }),
        decreases sorted@.len() - k,
    {
        let c = IsrGroupConfig {
            budget_us: sorted[k].1.budget_us,
            period_us: sorted[k].1.period_us,
            priority: Some(k as u32),
        };
        out.push((sorted[k].0.clone(), c));
        k = k + 1;
    }
    assert(groups_of(out@) =~= ranked(by_period(all)));
    *groups = out;
}

/// The groups are in the order of their periods.
pub open spec fn rate_ordered(s: Seq<(Seq<char>, IsrGroupConfig)>) -> bool {
    forall|i: int, j: int|
        0 <= i < j < s.len() ==> (#[trigger] s[i]).1.period_us <= (#[trigger] s[j]).1.period_us
}

/// Insertion keeps the order and adds the group.
proof fn lemma_insert_group(
    s: Seq<(Seq<char>, IsrGroupConfig)>,
    x: (Seq<char>, IsrGroupConfig),
)
    requires
        rate_ordered(s),
    ensures
        rate_ordered(insert_group(s, x)),
        insert_group(s, x).to_multiset() == s.to_multiset().insert(x),
        insert_group(s, x).len() == s.len() + 1,
        forall|i: int|
            0 <= i <= s.len() ==> (#[trigger] insert_group(s, x)[i]).1.period_us
                <= x.1.period_us || (s.len() > 0 && insert_group(s, x)[i].1.period_us
                <= s.last().1.period_us),
    decreases s.len(),
{
    broadcast use vstd::seq_lib::group_to_multiset_ensures;

    if s.len() > 0 && x.1.period_us < s.last().1.period_us {
        let p = s.drop_last();
        lemma_insert_group(p, x);
        assert(p.push(s.last()) =~= s);
        assert(p.len() > 0 ==> s[p.len() - 1].1.period_us <= s[s.len() - 1].1.period_us);
        let q = insert_group(p, x);
        let r = insert_group(s, x);
        assert(forall|i: int| 0 <= i < q.len() ==> (#[trigger] r[i]) == q[i]);
    }
}

/// Sorting by period keeps the groups.
proof fn lemma_by_period(s: Seq<(Seq<char>, IsrGroupConfig)>)
    ensures
        rate_ordered(by_period(s)),
        by_period(s).to_multiset() == s.to_multiset(),
        by_period(s).len() == s.len(),
    decreases s.len(),
{
    broadcast use vstd::seq_lib::group_to_multiset_ensures;

    if s.len() > 0 {
        lemma_by_period(s.drop_last());
        lemma_insert_group(by_period(s.drop_last()), s.last());
        assert(s.drop_last().push(s.last()) =~= s);
    } else {
        assert(by_period(s) =~= s);
    }
}

/// Priorities are rate-monotonic: every group gets one, no two get the same, and
/// of two groups the one with the shorter period gets the lower number.
pub proof fn law_priorities_are_rate_monotonic(s: Seq<(Seq<char>, IsrGroupConfig)>)
    requires
        s.len() <= 0x1_0000_0000,
    ensures
        by_period(s).to_multiset() == s.to_multiset(),
        ({
            let r = ranked(by_period(s));
            &&& r.len() == s.len()
            &&& forall|i: int|
                0 <= i < r.len() ==> (#[trigger] r[i]).1.priority == Some(i as u32)
            &&& forall|i: int, j: int|
                0 <= i < r.len() && 0 <= j < r.len() && (#[trigger] r[i]).1.period_us < (
                #[trigger] r[j]).1.period_us ==> r[i].1.priority->Some_0 < r[j].1.priority->Some_0
        }),
{
    lemma_by_period(s);
    let r = ranked(by_period(s));
    assert forall|i: int, j: int|
        0 <= i < r.len() && 0 <= j < r.len() && (#[trigger] r[i]).1.period_us < (
        #[trigger] r[j]).1.period_us implies r[i].1.priority->Some_0
        < r[j].1.priority->Some_0 by {
        assert(by_period(s)[i].1.period_us == r[i].1.period_us);
        assert(by_period(s)[j].1.period_us == r[j].1.period_us);
    }
}

/// The priority, zero where there is none.
pub open spec fn priority_or_zero(p: Option<u32>) -> u32 {
    match p {
        Some(n) => n,
        None => 0,
    }
}

/// The text with the first `k` groups.
pub open spec fn group_lines(out: Seq<char>, s: Seq<(Seq<char>, IsrGroupConfig)>, k: nat) -> Seq<char>
    decreases k,
{
    if k == 0 || k > s.len() {
        out
    } else {
        group_lines(out, s, (k - 1) as nat) + s[k - 1].0 + " "@ + dec(priority_or_zero(s[k - 1].1.priority) as nat) + " "@ + dec(s[k - 1].1.period_us as nat) + " "@ + dec(s[k - 1].1.budget_us as nat) + "\n"@
    }
}

/// The priorities for the linker.
pub fn generate_isr_section(groups: &Vec<(String, IsrGroupConfig)>) -> (r: String)
    ensures
        r@ == group_lines(
            "; ISR priority configuration (Rate-Monotonic)\n; function priority period_us budget_us\n"@,
            groups_of(groups@),
            groups@.len(),
        ),
{
    let mut s = text(
        "; ISR priority configuration (Rate-Monotonic)\n; function priority period_us budget_us\n",
    );
    let ghost head = s@;
    let mut k: usize = 0;
    while k < groups.len()
        invariant
            k <= groups@.len(),
            s@ == group_lines(head, groups_of(groups@), k as nat),
        decreases groups@.len() - k,
    {
        let g = &groups[k];
        let p: u32 = match g.1.priority {
            Some(n) => n,
            None => 0,
        };
        s.append(g.0.as_str());
        s.append(" ");
        push_dec(&mut s, p as u64);
        s.append(" ");
        push_dec(&mut s, g.1.period_us as u64);
        s.append(" ");
        push_dec(&mut s, g.1.budget_us as u64);
        s.append("\n");
        k = k + 1;
    }
    s
}

} // verus!
