//! What holds of the register allocator over any course of its use.

use vstd::prelude::*;
use crate::cstar::raw::common::{bump, down8};
use crate::cstar::raw::regalloc::{
    allocated, AllocState, entry, first_free, fresh_alloc, furthest, held, Holding,
    law_expiry_keeps_registers, law_last_use_keeps_registers,
    law_live_variables_keep_their_registers, law_spill_slots_are_distinct, lemma_entry,
    lemma_first_free, lemma_furthest, lemma_put, lemma_unexpired, Place, place_of, put,
    registers_of, registers_sound, shortened, slots_sound, unexpired,
};

verus! {

/// One use of the allocator.
pub enum AllocStep {
    Allocate(Seq<char>, usize, usize),
    Advance,
    Expire,
    LastUse(Seq<char>),
}

/// The state behind one use.
pub open spec fn stepped(s: AllocState, step: AllocStep) -> AllocState {
    match step {
        AllocStep::Allocate(v, start, end) => allocated(s, v, start, end).0,
        AllocStep::Advance => AllocState { pos: bump(s.pos), ..s },
        AllocStep::Expire => AllocState { active: unexpired(s.active, s.pos), ..s },
        AllocStep::LastUse(v) => AllocState {
            active: shortened(s.active, v, bump(s.pos), 0),
            ..s
        },
    }
}

/// The state behind the first `k` uses.
pub open spec fn ran(s: AllocState, steps: Seq<AllocStep>, k: nat) -> AllocState
    decreases k,
{
    if k == 0 || k > steps.len() {
        s
    } else {
        stepped(ran(s, steps, (k - 1) as nat), steps[k - 1])
    }
}

/// The variable was allocated among the first `k` uses.
pub open spec fn asked(steps: Seq<AllocStep>, k: nat, v: Seq<char>) -> bool {
    exists|i: int|
        0 <= i < k && i < steps.len() && (#[trigger] steps[i] matches AllocStep::Allocate(w, _, _)
            && w == v)
}

proof fn lemma_step_sound(s: AllocState, step: AllocStep)
    requires
        registers_sound(s),
    ensures
        registers_sound(stepped(s, step)),
{
    match step {
        AllocStep::Allocate(v, start, end) => {
            law_live_variables_keep_their_registers(s, v, start, end);
        },
        AllocStep::Advance => {
            let t = stepped(s, step);
            assert(t.active == s.active && t.places == s.places && t.regs == s.regs);
            assert forall|i: int, j: int|
                #![trigger t.active[i], t.active[j]]
                0 <= i < j < t.active.len() implies t.active[i].reg != t.active[j].reg
                && t.active[i].var != t.active[j].var by {
                assert(s.active[i].reg != s.active[j].reg);
            }
        },
        AllocStep::Expire => {
            law_expiry_keeps_registers(s, s.pos);
        },
        AllocStep::LastUse(v) => {
            law_last_use_keeps_registers(s, v, bump(s.pos));
        },
    }
}

proof fn lemma_ran_sound(regs: Seq<Seq<char>>, off: i32, steps: Seq<AllocStep>, k: nat)
    ensures
        registers_sound(ran(fresh_alloc(regs, off), steps, k)),
    decreases k,
{
    if k > 0 && k <= steps.len() {
        lemma_ran_sound(regs, off, steps, (k - 1) as nat);
        lemma_step_sound(ran(fresh_alloc(regs, off), steps, (k - 1) as nat), steps[k - 1]);
    }
}

/// The allocation of one variable gives a place to it and to no other variable
/// without one.
proof fn lemma_allocated_domain(s: AllocState, v: Seq<char>, start: usize, end: usize, w: Seq<char>)
    requires
        registers_sound(s),
    ensures
        place_of(allocated(s, v, start, end).0.places, w) is Some <==> (w == v || place_of(
            s.places,
            w,
        ) is Some),
{
    if place_of(s.places, v) is None {
        let active = unexpired(s.active, start);
        lemma_unexpired(s, s.active, start);
        match first_free(s.regs, active, 0) {
            Some(i) => {
                lemma_put(s.places, v, Place::Register(s.regs[i]), w);
            },
            None => {
                let f = furthest(active, active.len() as int);
                if active.len() == 0 || active[f].end > end {
                    lemma_put(s.places, v, Place::Spilled(s.next_off), w);
                } else {
                    lemma_furthest(active, active.len() as int);
                    let x = active[f].var;
                    let s1 = AllocState { active, ..s };
                    assert(s1.active[f].var == x);
                    lemma_put(s.places, x, Place::Spilled(s.next_off), w);
                    lemma_put(
                        put(s.places, x, Place::Spilled(s.next_off)),
                        v,
                        Place::Register(active[f].reg),
                        w,
                    );
                }
            },
        }
    }
}

/// The variables that have a place are exactly those that were allocated since
/// the allocator was new or reset.
pub proof fn law_places_are_of_allocated_variables(
    regs: Seq<Seq<char>>,
    off: i32,
    steps: Seq<AllocStep>,
    k: nat,
    v: Seq<char>,
)
    requires
        k <= steps.len(),
    ensures
        place_of(ran(fresh_alloc(regs, off), steps, k).places, v) is Some <==> asked(steps, k, v),
    decreases k,
{
    if k > 0 {
        let s = ran(fresh_alloc(regs, off), steps, (k - 1) as nat);
        law_places_are_of_allocated_variables(regs, off, steps, (k - 1) as nat, v);
        lemma_ran_sound(regs, off, steps, (k - 1) as nat);
        if asked(steps, (k - 1) as nat, v) {
            let i = choose|i: int|
                0 <= i < k - 1 && i < steps.len() && (#[trigger] steps[i] matches AllocStep::Allocate(
                    w,
                    _,
                    _,
                ) && w == v);
            assert(0 <= i < k && i < steps.len());
        }
        match steps[k - 1] {
            AllocStep::Allocate(w, start, end) => {
                lemma_allocated_domain(s, w, start, end, v);
                if w == v {
                    assert(steps[k - 1] matches AllocStep::Allocate(x, _, _) && x == v);
                }
            },
            _ => {},
        }
        if asked(steps, k, v) && !asked(steps, (k - 1) as nat, v) {
            assert(steps[k - 1] matches AllocStep::Allocate(x, _, _) && x == v);
        }
    }
}

// ---------------------------------------------------------------------------
// Stack slots
// ---------------------------------------------------------------------------

/// The number of spilled variables among the first `k` places.
pub open spec fn spilled(places: Seq<(Seq<char>, Place)>, k: nat) -> nat
    decreases k,
{
    if k == 0 || k > places.len() {
        0
    } else {
        spilled(places, (k - 1) as nat) + (if places[k - 1].1 is Spilled {
            1nat
        } else {
            0
        })
    }
}

/// The place is the slot at the offset `o`.
pub open spec fn in_slot(p: Place, o: int) -> bool {
    p matches Place::Spilled(x) && x == o
}

/// Some variable is spilled to the offset `o`.
pub open spec fn slot_taken(places: Seq<(Seq<char>, Place)>, o: int) -> bool {
    exists|i: int|
        0 <= i < places.len() && in_slot((#[trigger] places[i]).1, o)
}

/// The `n` spilled variables are in the slots `base`, `base - 8` and so on down
/// to `base - 8 * (n - 1)`, each slot is taken, and the next slot is the one
/// below them.
pub open spec fn slots_packed(s: AllocState, base: i32) -> bool {
    let n = spilled(s.places, s.places.len());
    &&& s.next_off == base - 8 * n
    &&& forall|o: int| #[trigger]
        slot_taken(s.places, o) <==> (base - 8 * n < o <= base && (base - o) % 8 == 0)
}

proof fn lemma_spilled_update(places: Seq<(Seq<char>, Place)>, i: int, x: (Seq<char>, Place), k: nat)
    requires
        0 <= i < places.len(),
        k <= places.len(),
        !(places[i].1 is Spilled),
        x.1 is Spilled,
    ensures
        spilled(places.update(i, x), k) == spilled(places, k) + (if i < k {
            1int
        } else {
            0
        }),
    decreases k,
{
    if k > 0 {
        lemma_spilled_update(places, i, x, (k - 1) as nat);
    }
}

proof fn lemma_spilled_push(places: Seq<(Seq<char>, Place)>, x: (Seq<char>, Place), k: nat)
    requires
        k <= places.len(),
    ensures
        spilled(places.push(x), k) == spilled(places, k),
    decreases k,
{
    if k > 0 {
        lemma_spilled_push(places, x, (k - 1) as nat);
    }
}

/// A variable that was in no slot takes the next one.
proof fn lemma_put_packed(s: AllocState, v: Seq<char>, base: i32)
    requires
        slots_packed(s, base),
        s.next_off >= i32::MIN + 8,
        place_of(s.places, v) matches Some(p) ==> p is Register,
    ensures
        slots_packed(
            AllocState {
                places: put(s.places, v, Place::Spilled(s.next_off)),
                next_off: down8(s.next_off),
                ..s
            },
            base,
        ),
{
    let p = Place::Spilled(s.next_off);
    let q = put(s.places, v, p);
    let n = spilled(s.places, s.places.len());
    lemma_entry(s.places, v, 0);
    match entry(s.places, v, 0) {
        Some(i) => {
            lemma_spilled_update(s.places, i, (v, p), s.places.len());
        },
        None => {
            lemma_spilled_push(s.places, (v, p), s.places.len());
        },
    }
    assert(spilled(q, q.len()) == n + 1);
    let at = match entry(s.places, v, 0) {
        Some(i) => i,
        None => s.places.len() as int,
    };
    assert(q[at] == (v, p));
    assert forall|o: int| #[trigger]
        slot_taken(q, o) <==> (base - 8 * (n + 1) < o <= base && (base - o) % 8 == 0) by {
        if slot_taken(q, o) {
            let i = choose|i: int|
                0 <= i < q.len() && in_slot((#[trigger] q[i]).1, o);
            if i != at {
                assert(s.places[i] == q[i]);
                assert(slot_taken(s.places, o));
            }
        }
        if base - 8 * (n + 1) < o <= base && (base - o) % 8 == 0 {
            if o > base - 8 * n {
                assert(slot_taken(s.places, o));
                let i = choose|i: int|
                    0 <= i < s.places.len() && in_slot((#[trigger] s.places[i]).1, o);
                assert(i != at);
                assert(q[i] == s.places[i]);
            } else {
                assert(o == base - 8 * n);
                assert(in_slot(q[at].1, o));
            }
        }
    }
}

/// A variable that gets a register takes no slot.
proof fn lemma_put_register(s: AllocState, v: Seq<char>, r: Seq<char>, base: i32)
    requires
        slots_packed(s, base),
        place_of(s.places, v) is None,
    ensures
        slots_packed(
            AllocState { places: put(s.places, v, Place::Register(r)), ..s },
            base,
        ),
{
    let x = (v, Place::Register(r));
    let q = put(s.places, v, x.1);
    lemma_spilled_push(s.places, x, s.places.len());
    assert forall|o: int| #[trigger] slot_taken(q, o) <==> slot_taken(s.places, o) by {
        if slot_taken(q, o) {
            let i = choose|i: int|
                0 <= i < q.len() && in_slot((#[trigger] q[i]).1, o);
            assert(q[i] == s.places[i]);
        }
        if slot_taken(s.places, o) {
            let i = choose|i: int|
                0 <= i < s.places.len() && in_slot((#[trigger] s.places[i]).1, o);
            assert(q[i] == s.places[i]);
        }
    }
}

proof fn lemma_allocated_packed(s: AllocState, v: Seq<char>, start: usize, end: usize, base: i32)
    requires
        registers_sound(s),
        slots_packed(s, base),
        s.next_off >= i32::MIN + 8,
    ensures
        slots_packed(allocated(s, v, start, end).0, base),
{
    if place_of(s.places, v) is None {
        let active = unexpired(s.active, start);
        lemma_unexpired(s, s.active, start);
        let s1 = AllocState { active, ..s };
        match first_free(s.regs, active, 0) {
            Some(i) => {
                lemma_put_register(s1, v, s.regs[i], base);
            },
            None => {
                let f = furthest(active, active.len() as int);
                if active.len() == 0 || active[f].end > end {
                    lemma_put_packed(s1, v, base);
                } else {
                    lemma_furthest(active, active.len() as int);
                    assert(s1.active[f] == active[f]);
                    let w = active[f].var;
                    lemma_put_packed(s1, w, base);
                    let s2 = AllocState {
                        places: put(s.places, w, Place::Spilled(s.next_off)),
                        next_off: down8(s.next_off),
                        ..s1
                    };
                    lemma_put(s.places, w, Place::Spilled(s.next_off), v);
                    lemma_put_register(s2, v, active[f].reg, base);
                }
            },
        }
    }
}

/// The stack space in use is eight bytes for each spilled variable. The spilled
/// variables of an allocator that starts at `base` are in the slots `base`,
/// `base - 8` and so on, without a gap and each in a slot of its own, as long as
/// the offsets do not run out.
pub proof fn law_spill_slots_are_packed(
    regs: Seq<Seq<char>>,
    base: i32,
    steps: Seq<AllocStep>,
    k: nat,
)
    requires
        k <= steps.len(),
        forall|j: nat|
            j < k ==> (#[trigger] ran(fresh_alloc(regs, base), steps, j)).next_off >= i32::MIN + 8,
    ensures
        slots_packed(ran(fresh_alloc(regs, base), steps, k), base),
        slots_sound(ran(fresh_alloc(regs, base), steps, k)),
    decreases k,
{
    let first = fresh_alloc(regs, base);
    if k == 0 {
        assert forall|o: int| !(#[trigger] slot_taken(first.places, o)) by {}
    } else {
        law_spill_slots_are_packed(regs, base, steps, (k - 1) as nat);
        lemma_ran_sound(regs, base, steps, (k - 1) as nat);
        let s = ran(first, steps, (k - 1) as nat);
        match steps[k - 1] {
            AllocStep::Allocate(v, start, end) => {
                lemma_allocated_packed(s, v, start, end, base);
                law_spill_slots_are_distinct(s, v, start, end);
            },
            _ => {
                let t = stepped(s, steps[k - 1]);
                assert(t.places == s.places && t.next_off == s.next_off);
                assert forall|i: int, j: int|
                    #![trigger t.places[i], t.places[j]]
                    0 <= i < j < t.places.len() implies t.places[i].0 != t.places[j].0 && (
                t.places[i].1 is Spilled && t.places[j].1 is Spilled ==> t.places[i].1
                    != t.places[j].1) by {
                    assert(s.places[i].0 != s.places[j].0);
                }
            },
        }
    }
}

// ---------------------------------------------------------------------------
// Registers
// ---------------------------------------------------------------------------

/// Some variable has the register `r`.
pub open spec fn given(places: Seq<(Seq<char>, Place)>, r: Seq<char>) -> bool {
    exists|i: int| 0 <= i < places.len() && (#[trigger] places[i]).1 == Place::Register(r)
}

/// Use `i` allocated a variable and gave the register `r` for it.
pub open spec fn gave(s: AllocState, steps: Seq<AllocStep>, i: int, r: Seq<char>) -> bool {
    steps[i] matches AllocStep::Allocate(v, start, end) && allocated(
        ran(s, steps, i as nat),
        v,
        start,
        end,
    ).1 == Place::Register(r)
}

proof fn lemma_registers_of(places: Seq<(Seq<char>, Place)>, k: nat, r: Seq<char>)
    requires
        k <= places.len(),
    ensures
        registers_of(places, k).contains(r) <==> exists|i: int|
            0 <= i < k && (#[trigger] places[i]).1 == Place::Register(r),
        registers_of(places, k).no_duplicates(),
    decreases k,
{
    if k > 0 {
        let prev = registers_of(places, (k - 1) as nat);
        lemma_registers_of(places, (k - 1) as nat, r);
        match places[k - 1].1 {
            Place::Register(x) => {
                if !prev.contains(x) {
                    let all = prev.push(x);
                    assert(all[all.len() - 1] == x);
                    if prev.contains(r) {
                        let i = prev.index_of(r);
                        assert(all[i] == r);
                    }
                    if all.contains(r) && r != x {
                        let i = all.index_of(r);
                        assert(prev[i] == r);
                    }
                }
            },
            Place::Spilled(_) => {},
        }
    }
}

proof fn lemma_put_given(places: Seq<(Seq<char>, Place)>, v: Seq<char>, p: Place, r: Seq<char>)
    requires
        place_of(places, v) matches Some(q) ==> q != Place::Register(r),
    ensures
        given(put(places, v, p), r) <==> given(places, r) || p == Place::Register(r),
{
    let out = put(places, v, p);
    lemma_entry(places, v, 0);
    let at = match entry(places, v, 0) {
        Some(i) => i,
        None => places.len() as int,
    };
    assert(out[at] == (v, p));
    if given(out, r) {
        let i = choose|i: int| 0 <= i < out.len() && (#[trigger] out[i]).1 == Place::Register(r);
        if i != at {
            assert(places[i] == out[i]);
        }
    }
    if given(places, r) {
        let i = choose|i: int|
            0 <= i < places.len() && (#[trigger] places[i]).1 == Place::Register(r);
        assert(out[i] == places[i]);
    }
}

proof fn lemma_allocated_given(s: AllocState, v: Seq<char>, start: usize, end: usize, r: Seq<char>)
    requires
        registers_sound(s),
    ensures
        given(allocated(s, v, start, end).0.places, r) <==> (given(s.places, r) || allocated(
            s,
            v,
            start,
            end,
        ).1 == Place::Register(r)),
{
    if place_of(s.places, v) is None {
        let active = unexpired(s.active, start);
        lemma_unexpired(s, s.active, start);
        let s1 = AllocState { active, ..s };
        match first_free(s.regs, active, 0) {
            Some(i) => {
                lemma_put_given(s.places, v, Place::Register(s.regs[i]), r);
            },
            None => {
                let f = furthest(active, active.len() as int);
                if active.len() == 0 || active[f].end > end {
                    lemma_put_given(s.places, v, Place::Spilled(s.next_off), r);
                } else {
                    lemma_furthest(active, active.len() as int);
                    assert(s1.active[f] == active[f]);
                    let w = active[f].var;
                    let p1 = put(s.places, w, Place::Spilled(s.next_off));
                    let q = put(p1, v, Place::Register(active[f].reg));
                    lemma_put(s.places, w, Place::Spilled(s.next_off), v);
                    lemma_put_given(p1, v, Place::Register(active[f].reg), r);
                    if r != active[f].reg {
                        lemma_put_given(s.places, w, Place::Spilled(s.next_off), r);
                    }
                }
            },
        }
    } else {
        lemma_entry(s.places, v, 0);
    }
}

/// The registers in use are exactly those that were given to some variable
/// since the allocator was new or reset, each once.
pub proof fn law_used_registers_are_those_given(
    regs: Seq<Seq<char>>,
    off: i32,
    steps: Seq<AllocStep>,
    k: nat,
    r: Seq<char>,
)
    requires
        k <= steps.len(),
    ensures
        ({
            let places = ran(fresh_alloc(regs, off), steps, k).places;
            let used = registers_of(places, places.len());
            &&& used.contains(r) <==> exists|i: int|
                0 <= i < k && #[trigger] gave(fresh_alloc(regs, off), steps, i, r)
            &&& used.no_duplicates()
        }),
{
    let s = fresh_alloc(regs, off);
    let places = ran(s, steps, k).places;
    lemma_registers_of(places, places.len(), r);
    lemma_given(regs, off, steps, k, r);
}

proof fn lemma_given(
    regs: Seq<Seq<char>>,
    off: i32,
    steps: Seq<AllocStep>,
    k: nat,
    r: Seq<char>,
)
    requires
        k <= steps.len(),
    ensures
        given(ran(fresh_alloc(regs, off), steps, k).places, r) <==> exists|i: int|
            0 <= i < k && #[trigger] gave(fresh_alloc(regs, off), steps, i, r),
    decreases k,
{
    let first = fresh_alloc(regs, off);
    if k > 0 {
        lemma_given(regs, off, steps, (k - 1) as nat, r);
        lemma_ran_sound(regs, off, steps, (k - 1) as nat);
        let s = ran(first, steps, (k - 1) as nat);
        match steps[k - 1] {
            AllocStep::Allocate(v, start, end) => {
                lemma_allocated_given(s, v, start, end, r);
            },
            _ => {},
        }
        if exists|i: int| 0 <= i < k && #[trigger] gave(first, steps, i, r) {
            let i = choose|i: int| 0 <= i < k && #[trigger] gave(first, steps, i, r);
            if i == k - 1 {
                assert(gave(first, steps, k - 1, r));
            }
        }
        if exists|i: int| 0 <= i < k - 1 && #[trigger] gave(first, steps, i, r) {
            let i = choose|i: int| 0 <= i < k - 1 && #[trigger] gave(first, steps, i, r);
            assert(0 <= i < k);
        }
        if given(ran(first, steps, k).places, r) && !given(s.places, r) {
            assert(gave(first, steps, k - 1, r));
        }
    } else {
        assert(!given(first.places, r));
    }
}

/// The register of a variable is free again one position behind the one at
/// which its last use was marked.
pub proof fn law_last_use_frees_the_register(s: AllocState, v: Seq<char>, i: int)
    requires
        registers_sound(s),
        0 <= i < s.active.len(),
        s.active[i].var == v,
    ensures
        !held(
            unexpired(shortened(s.active, v, bump(s.pos), 0), bump(s.pos)),
            s.active[i].reg,
        ),
{
    let end = bump(s.pos);
    let reg = s.active[i].reg;
    lemma_shortened_at(s.active, v, end, 0, i);
    let cut = shortened(s.active, v, end, 0);
    let t = AllocState { active: cut, ..s };
    law_last_use_keeps_registers(s, v, end);
    lemma_unexpired(t, cut, end);
    let left = unexpired(cut, end);
    if held(left, reg) {
        let a = choose|a: int| 0 <= a < left.len() && (#[trigger] left[a]).reg == reg;
        let b = choose|b: int| 0 <= b < cut.len() && cut[b] == left[a];
        if b < i {
            assert(t.active[b].reg != t.active[i].reg);
        } else if i < b {
            assert(t.active[i].reg != t.active[b].reg);
        }
    }
}

proof fn lemma_shortened_at(active: Seq<Holding>, v: Seq<char>, end: usize, k: int, i: int)
    requires
        0 <= k <= i < active.len(),
        active[i].var == v,
        forall|a: int, b: int|
            #![trigger active[a], active[b]]
            0 <= a < b < active.len() ==> active[a].var != active[b].var,
    ensures
        shortened(active, v, end, k).len() == active.len(),
        shortened(active, v, end, k)[i] == (Holding { end, ..active[i] }),
    decreases active.len() - k,
{
    if active[k].var != v {
        lemma_shortened_at(active, v, end, k + 1, i);
    }
}

// ---------------------------------------------------------------------------
// Intervals
// ---------------------------------------------------------------------------

/// A variable with its live interval.
pub struct Interval {
    pub var: Seq<char>,
    pub start: usize,
    pub end: usize,
}

/// The allocations of the variables of some intervals.
pub open spec fn requests(vs: Seq<Interval>) -> Seq<AllocStep> {
    Seq::new(vs.len(), |i: int| AllocStep::Allocate(vs[i].var, vs[i].start, vs[i].end))
}

/// The variables differ, no interval is empty, and the intervals come in the
/// order of their starts.
pub open spec fn in_order(vs: Seq<Interval>) -> bool {
    &&& forall|i: int| 0 <= i < vs.len() ==> (#[trigger] vs[i]).start < vs[i].end
    &&& forall|i: int, j: int|
        #![trigger vs[i], vs[j]]
        0 <= i < j < vs.len() ==> vs[i].var != vs[j].var && vs[i].start <= vs[j].start
}

/// Some position is in both intervals.
pub open spec fn overlap(a: Interval, b: Interval) -> bool {
    a.start < b.end && b.start < a.end
}

/// What holds behind the first `k` intervals: a variable whose place is a
/// register holds it or has expired, and of two variables with the same
/// register the first one ends before the second one starts.
spec fn apart(s: AllocState, vs: Seq<Interval>, k: int) -> bool {
    &&& registers_sound(s)
    &&& forall|i: int|
        #![trigger vs[i]]
        0 <= i < k ==> (place_of(s.places, vs[i].var) matches Some(Place::Register(r)) ==> (
        vs[i].end <= vs[k - 1].start || s.active.contains(
            Holding { reg: r, var: vs[i].var, end: vs[i].end },
        )))
    &&& forall|i: int, j: int|
        #![trigger vs[i], vs[j]]
        0 <= i < j < k ==> (place_of(s.places, vs[i].var) is Some && place_of(s.places, vs[i].var)
            == place_of(s.places, vs[j].var) && place_of(s.places, vs[i].var)->Some_0 is Register
            ==> vs[i].end <= vs[j].start)
    &&& forall|i: int|
        #![trigger vs[i]]
        k <= i < vs.len() ==> place_of(s.places, vs[i].var) is None
}

proof fn lemma_unexpired_keeps(active: Seq<Holding>, pos: usize, h: Holding)
    requires
        active.contains(h),
        h.end > pos,
    ensures
        unexpired(active, pos).contains(h),
    decreases active.len(),
{
    let i = active.index_of(h);
    let out = unexpired(active, pos);
    let rest = unexpired(active.drop_last(), pos);
    if i == active.len() - 1 {
        assert(out[out.len() - 1] == h);
    } else {
        assert(active.drop_last()[i] == h);
        lemma_unexpired_keeps(active.drop_last(), pos, h);
        let j = rest.index_of(h);
        assert(out[j] == h);
    }
}

proof fn lemma_apart(s: AllocState, vs: Seq<Interval>, k: int)
    requires
        in_order(vs),
        0 <= k < vs.len(),
        apart(s, vs, k),
    ensures
        apart(allocated(s, vs[k].var, vs[k].start, vs[k].end).0, vs, k + 1),
{
    let v = vs[k].var;
    let (start, end) = (vs[k].start, vs[k].end);
    let t = allocated(s, v, start, end).0;
    let p = allocated(s, v, start, end).1;
    let active = unexpired(s.active, start);
    let s1 = AllocState { active, ..s };
    law_live_variables_keep_their_registers(s, v, start, end);
    lemma_unexpired(s, s.active, start);
    lemma_first_free(s.regs, active, 0);
    let f = furthest(active, active.len() as int);
    if active.len() > 0 {
        lemma_furthest(active, active.len() as int);
    }
    let evicts = first_free(s.regs, active, 0) is None && active.len() > 0 && active[f].end <= end;
    let off = Place::Spilled(s.next_off);
    // The places behind the allocation.
    assert forall|w: Seq<char>|
        place_of(t.places, w) == (if w == v {
            Some(p)
        } else if evicts && w == active[f].var {
            Some(off)
        } else {
            #[trigger] place_of(s.places, w)
        }) by {
        match first_free(s.regs, active, 0) {
            Some(i) => {
                lemma_put(s.places, v, Place::Register(s.regs[i]), w);
            },
            None => {
                lemma_put(s.places, v, off, w);
                if evicts {
                    lemma_put(s.places, active[f].var, off, w);
                    lemma_put(
                        put(s.places, active[f].var, off),
                        v,
                        Place::Register(active[f].reg),
                        w,
                    );
                }
            },
        }
    }
    if evicts {
        assert(s1.active[f] == active[f]);
        assert(place_of(s.places, active[f].var) is Some);
        assert(active[f].var != v);
    }
    // A variable that keeps a register and has not expired is held.
    assert forall|i: int|
        #![trigger vs[i]]
        0 <= i < k && place_of(t.places, vs[i].var) is Some && place_of(
            t.places,
            vs[i].var,
        )->Some_0 is Register && vs[i].end > start implies ({
        let h = Holding {
            reg: place_of(t.places, vs[i].var)->Some_0->Register_0,
            var: vs[i].var,
            end: vs[i].end,
        };
        &&& active.contains(h)
        &&& t.active.contains(h)
        &&& p != Place::Register(h.reg)
    }) by {
        let w = vs[i].var;
        assert(vs[i].var != vs[k].var);
        assert(place_of(t.places, w) == place_of(s.places, w));
        let r = place_of(t.places, w)->Some_0->Register_0;
        let h = Holding { reg: r, var: w, end: vs[i].end };
        if k > 0 {
            assert(vs[k - 1].start <= vs[k].start);
        }
        assert(s.active.contains(h));
        lemma_unexpired_keeps(s.active, start, h);
        let a = active.index_of(h);
        match first_free(s.regs, active, 0) {
            Some(x) => {
                assert(active[a].reg == r);
                assert(held(active, r));
                assert(t.active[a] == h);
            },
            None => {
                if evicts {
                    assert(a != f);
                    assert(s1.active[a].reg == r);
                    if a < f {
                        assert(s1.active[a].reg != s1.active[f].reg);
                        assert(t.active[a] == h);
                    } else {
                        assert(s1.active[f].reg != s1.active[a].reg);
                        assert(t.active[a - 1] == h);
                    }
                } else {
                    assert(t.active[a] == h);
                }
            },
        }
    }
    assert forall|i: int|
        #![trigger vs[i]]
        0 <= i < k + 1 implies (place_of(t.places, vs[i].var) matches Some(Place::Register(r)) ==> (
    vs[i].end <= vs[k].start || t.active.contains(
        Holding { reg: r, var: vs[i].var, end: vs[i].end },
    ))) by {
        if i == k && p is Register {
            let h = Holding { reg: p->Register_0, var: v, end };
            assert(t.active[t.active.len() - 1] == h);
        }
    }
    assert forall|i: int, j: int|
        #![trigger vs[i], vs[j]]
        0 <= i < j < k + 1 && place_of(t.places, vs[i].var) is Some && place_of(
            t.places,
            vs[i].var,
        ) == place_of(t.places, vs[j].var) && place_of(t.places, vs[i].var)->Some_0
            is Register implies vs[i].end <= vs[j].start by {
        assert(vs[i].var != vs[j].var);
        if j < k {
            assert(vs[i].var != vs[k].var);
            assert(vs[j].var != vs[k].var);
        }
    }
    assert forall|i: int|
        #![trigger vs[i]]
        k + 1 <= i < vs.len() implies place_of(t.places, vs[i].var) is None by {
        assert(vs[k].var != vs[i].var);
        assert(place_of(s.places, vs[i].var) is None);
    }
}

proof fn lemma_all_apart(regs: Seq<Seq<char>>, off: i32, vs: Seq<Interval>, k: nat)
    requires
        in_order(vs),
        k <= vs.len(),
    ensures
        apart(ran(fresh_alloc(regs, off), requests(vs), k), vs, k as int),
    decreases k,
{
    if k > 0 {
        lemma_all_apart(regs, off, vs, (k - 1) as nat);
        lemma_apart(ran(fresh_alloc(regs, off), requests(vs), (k - 1) as nat), vs, k - 1);
    }
}

/// Variables whose intervals overlap never share a register: where a new
/// allocator gives places to different variables in the order of their starts,
/// two of them have the same register only if one ends before the other starts.
pub proof fn law_overlapping_variables_share_no_register(
    regs: Seq<Seq<char>>,
    off: i32,
    vs: Seq<Interval>,
    i: int,
    j: int,
)
    requires
        in_order(vs),
        0 <= i < vs.len(),
        0 <= j < vs.len(),
        i != j,
        overlap(vs[i], vs[j]),
    ensures
        ({
            let places = ran(fresh_alloc(regs, off), requests(vs), vs.len()).places;
            place_of(places, vs[i].var) matches Some(Place::Register(r)) ==> place_of(
                places,
                vs[j].var,
            ) != Some(Place::Register(r))
        }),
{
    lemma_all_apart(regs, off, vs, vs.len());
    if i < j {
        assert(vs[i].var != vs[j].var);
    } else {
        assert(vs[j].var != vs[i].var);
    }
}

} // verus!
