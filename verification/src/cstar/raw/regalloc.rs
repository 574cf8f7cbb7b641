//! Linear-scan register allocator for the native backends.
//!
//! Every variable has a live interval `[start, end)`.  A register is free again
//! once the interval of its variable has ended, and a variable is spilled to
//! the stack only while all registers hold live variables.

use vstd::prelude::*;
use crate::cstar::raw::common::{bump, bumped, down8, lowered};
use crate::text::{same, text};

verus! {

/// The live interval of a variable.
#[derive(Debug)]
pub struct LiveInterval {
    pub var_name: String,
    /// The position of the first definition.
    pub start: usize,
    /// The position of the last use.
    pub end: usize,
    /// Whether the variable is a parameter.
    pub is_param: bool,
    /// Whether the variable is a loop variable.
    pub is_loop_var: bool,
}

/// Where a variable was allocated.
#[derive(Debug)]
pub enum AllocResult {
    /// In a register.
    Register(String),
    /// In a stack slot, at an offset from the frame pointer.
    Spilled(i32),
}

/// The place of a variable.
pub enum Place {
    Register(Seq<char>),
    Spilled(i32),
}

impl View for AllocResult {
    type V = Place;

    open spec fn view(&self) -> Place {
        match self {
            AllocResult::Register(r) => Place::Register(r@),
            AllocResult::Spilled(o) => Place::Spilled(*o),
        }
    }
}

/// A register that holds a live variable.
pub struct Holding {
    pub reg: Seq<char>,
    pub var: Seq<char>,
    pub end: usize,
}

/// The state of the allocator: the register pool, the registers that hold live
/// variables in the order in which they were taken, the places given so far in
/// the order of their first assignment, the next stack slot, and the present
/// position.
pub struct AllocState {
    pub regs: Seq<Seq<char>>,
    pub active: Seq<Holding>,
    pub places: Seq<(Seq<char>, Place)>,
    pub next_off: i32,
    pub pos: usize,
}

/// The holdings whose intervals reach beyond `pos`.
pub open spec fn unexpired(active: Seq<Holding>, pos: usize) -> Seq<Holding>
    decreases active.len(),
{
    if active.len() == 0 {
        Seq::empty()
    } else {
        let rest = unexpired(active.drop_last(), pos);
        if active.last().end <= pos {
            rest
        } else {
            rest.push(active.last())
        }
    }
}

/// Some holding is of the register `r`.
pub open spec fn held(active: Seq<Holding>, r: Seq<char>) -> bool {
    exists|i: int| 0 <= i < active.len() && (#[trigger] active[i]).reg == r
}

/// The position of the first free register, at or behind `k`.
pub open spec fn first_free(regs: Seq<Seq<char>>, active: Seq<Holding>, k: int) -> Option<int>
    decreases regs.len() - k,
{
    if k < 0 || k >= regs.len() {
        None
    } else if !held(active, regs[k]) {
        Some(k)
    } else {
        first_free(regs, active, k + 1)
    }
}

/// The position of the holding with the furthest end among the first `k`; the
/// last one where there are several.
pub open spec fn furthest(active: Seq<Holding>, k: int) -> int
    decreases k,
{
    if k <= 1 {
        0
    } else {
        let i = furthest(active, k - 1);
        if active[k - 1].end >= active[i].end {
            k - 1
        } else {
            i
        }
    }
}

/// The position of the entry for `v`, at or behind `k`.
pub open spec fn entry(places: Seq<(Seq<char>, Place)>, v: Seq<char>, k: int) -> Option<int>
    decreases places.len() - k,
{
    if k < 0 || k >= places.len() {
        None
    } else if places[k].0 == v {
        Some(k)
    } else {
        entry(places, v, k + 1)
    }
}

/// The place of `v`.
pub open spec fn place_of(places: Seq<(Seq<char>, Place)>, v: Seq<char>) -> Option<Place> {
    match entry(places, v, 0) {
        Some(i) => Some(places[i].1),
        None => None,
    }
}

/// The places with `v` at `p`.
pub open spec fn put(places: Seq<(Seq<char>, Place)>, v: Seq<char>, p: Place) -> Seq<
    (Seq<char>, Place),
> {
    match entry(places, v, 0) {
        Some(i) => places.update(i, (v, p)),
        None => places.push((v, p)),
    }
}

/// The state behind the allocation of the new variable `v`, and its place.
pub open spec fn allocated(s: AllocState, v: Seq<char>, start: usize, end: usize) -> (
    AllocState,
    Place,
) {
    match place_of(s.places, v) {
        Some(p) => (s, p),
        None => {
            let active = unexpired(s.active, start);
            match first_free(s.regs, active, 0) {
                Some(i) => {
                    let p = Place::Register(s.regs[i]);
                    (
                        AllocState {
                            active: active.push(Holding { reg: s.regs[i], var: v, end }),
                            places: put(s.places, v, p),
                            ..s
                        },
                        p,
                    )
                },
                None => {
                    let f = furthest(active, active.len() as int);
                    if active.len() == 0 || active[f].end > end {
                        let p = Place::Spilled(s.next_off);
                        (
                            AllocState {
                                active,
                                places: put(s.places, v, p),
                                next_off: down8(s.next_off),
                                ..s
                            },
                            p,
                        )
                    } else {
                        let p = Place::Register(active[f].reg);
                        (
                            AllocState {
                                active: active.remove(f).push(
                                    Holding { reg: active[f].reg, var: v, end },
                                ),
                                places: put(
                                    put(s.places, active[f].var, Place::Spilled(s.next_off)),
                                    v,
                                    p,
                                ),
                                next_off: down8(s.next_off),
                                ..s
                            },
                            p,
                        )
                    }
                },
            }
        },
    }
}

/// The holdings with the end of the first one of variable `v` set to `end`.
pub open spec fn shortened(active: Seq<Holding>, v: Seq<char>, end: usize, k: int) -> Seq<Holding>
    decreases active.len() - k,
{
    if k < 0 || k >= active.len() {
        active
    } else if active[k].var == v {
        active.update(k, Holding { end, ..active[k] })
    } else {
        shortened(active, v, end, k + 1)
    }
}

/// The registers among the first `k` places, each once, in the order of their
/// first use.
pub open spec fn registers_of(places: Seq<(Seq<char>, Place)>, k: nat) -> Seq<Seq<char>>
    decreases k,
{
    if k == 0 || k > places.len() {
        Seq::empty()
    } else {
        let prev = registers_of(places, (k - 1) as nat);
        match places[k - 1].1 {
            Place::Register(r) => if prev.contains(r) {
                prev
            } else {
                prev.push(r)
            },
            Place::Spilled(_) => prev,
        }
    }
}

/// A new allocator over the given registers.
pub open spec fn fresh_alloc(regs: Seq<Seq<char>>, off: i32) -> AllocState {
    AllocState { regs, active: Seq::empty(), places: Seq::empty(), next_off: off, pos: 0 }
}

struct Active {
    reg: String,
    var: String,
    end: usize,
}

/// The register allocator.
pub struct RegisterAllocator {
    registers: Vec<String>,
    active: Vec<Active>,
    allocations: Vec<(String, AllocResult)>,
    next_stack_offset: i32,
    /// The present position.
    pub current_pos: usize,
}

spec fn holding(a: Active) -> Holding {
    Holding { reg: a.reg@, var: a.var@, end: a.end }
}

spec fn placed(p: (String, AllocResult)) -> (Seq<char>, Place) {
    (p.0@, p.1@)
}

impl View for RegisterAllocator {
    type V = AllocState;

    closed spec fn view(&self) -> AllocState {
        AllocState {
            regs: self.registers@.map_values(|r: String| r@),
            active: self.active@.map_values(|a: Active| holding(a)),
            places: self.allocations@.map_values(|p: (String, AllocResult)| placed(p)),
            next_off: self.next_stack_offset,
            pos: self.current_pos,
        }
    }
}

/// A copy of an allocation result.
pub fn copy_result(r: &AllocResult) -> (c: AllocResult)
    ensures
        c@ == r@,
{
    match r {
        AllocResult::Register(s) => AllocResult::Register(s.clone()),
        AllocResult::Spilled(o) => AllocResult::Spilled(*o),
    }
}

impl RegisterAllocator {
    /// A new allocator: the registers come first where they are to be preferred.
    pub fn new(registers: Vec<String>, initial_stack_offset: i32) -> (r: Self)
        ensures
            r@ == fresh_alloc(registers@.map_values(|s: String| s@), initial_stack_offset),
    {
        let r = RegisterAllocator {
            registers,
            active: Vec::new(),
            allocations: Vec::new(),
            next_stack_offset: initial_stack_offset,
            current_pos: 0,
        };
        assert(r@.active =~= Seq::<Holding>::empty());
        assert(r@.places =~= Seq::<(Seq<char>, Place)>::empty());
        r
    }

    /// Moves on by one position.
    pub fn advance(&mut self)
        ensures
            final(self)@ == (AllocState { pos: bump(old(self)@.pos), ..old(self)@ }),
    {
        self.current_pos = bumped(self.current_pos);
    }

    /// The present position.
    pub fn current_pos(&self) -> (r: usize)
        ensures
            r == self@.pos,
    {
        self.current_pos
    }

    /// Frees the registers whose intervals end at or before `pos`.
    fn expire(&mut self, pos: usize)
        ensures
            final(self)@ == (AllocState {
                active: unexpired(old(self)@.active, pos),
                ..old(self)@
            }),
    {
        let mut kept: Vec<Active> = Vec::new();
        let mut i: usize = 0;
        let ghost all = self@.active;
        assert(all.take(0) =~= Seq::<Holding>::empty());
        assert(kept@.map_values(|a: Active| holding(a)) =~= unexpired(all.take(0), pos));
        while i < self.active.len()
            invariant
                i <= self.active@.len(),
                all == self.active@.map_values(|a: Active| holding(a)),
                kept@.map_values(|a: Active| holding(a)) == unexpired(all.take(i as int), pos),
            decreases self.active@.len() - i,
        {
            assert(all.take(i + 1).drop_last() =~= all.take(i as int));
            let a = &self.active[i];
            if a.end > pos {
                let ghost before = kept@;
                kept.push(Active { reg: a.reg.clone(), var: a.var.clone(), end: a.end });
                assert(kept@.map_values(|a: Active| holding(a)) =~= before.map_values(
                    |a: Active| holding(a),
                ).push(all[i as int]));
            }
            i = i + 1;
        }
        assert(all.take(i as int) =~= all);
        self.active = kept;
    }

    /// Frees the registers whose intervals end at or before the present
    /// position.
    pub fn expire_old_intervals(&mut self)
        ensures
            final(self)@ == (AllocState {
                active: unexpired(old(self)@.active, old(self)@.pos),
                ..old(self)@
            }),
    {
        let pos: usize = self.current_pos;
        self.expire(pos);
    }

    fn is_held(&self, r: &str) -> (b: bool)
        ensures
            b == held(self@.active, r@),
    {
        let mut i: usize = 0;
        while i < self.active.len()
            invariant
                i <= self.active@.len(),
                forall|j: int| 0 <= j < i ==> (#[trigger] self@.active[j]).reg != r@,
            decreases self.active@.len() - i,
        {
            if same(self.active[i].reg.as_str(), r) {
                assert(self@.active[i as int].reg == r@);
                return true;
            }
            assert(self@.active[i as int].reg != r@);
            i = i + 1;
        }
        false
    }

    fn find_free(&self) -> (r: Option<usize>)
        ensures
            r matches Some(i) ==> i < self@.regs.len() && first_free(
                self@.regs,
                self@.active,
                0,
            ) == Some(i as int),
            r is None ==> first_free(self@.regs, self@.active, 0) is None,
    {
        let mut k: usize = 0;
        while k < self.registers.len()
            invariant
                k <= self.registers@.len(),
                first_free(self@.regs, self@.active, 0) == first_free(
                    self@.regs,
                    self@.active,
                    k as int,
                ),
            decreases self.registers@.len() - k,
        {
            assert(self@.regs[k as int] == self.registers@[k as int]@);
            if !self.is_held(self.registers[k].as_str()) {
                return Some(k);
            }
            k = k + 1;
        }
        None
    }

    fn find_furthest(&self) -> (r: usize)
        requires
            self@.active.len() > 0,
        ensures
            r < self@.active.len(),
            r == furthest(self@.active, self@.active.len() as int),
    {
        let mut best: usize = 0;
        let mut k: usize = 1;
        while k < self.active.len()
            invariant
                1 <= k <= self.active@.len(),
                best < k,
                best == furthest(self@.active, k as int),
            decreases self.active@.len() - k,
        {
            assert(self@.active[k as int].end == self.active@[k as int].end);
            assert(self@.active[best as int].end == self.active@[best as int].end);
            if self.active[k].end >= self.active[best].end {
                best = k;
            }
            k = k + 1;
        }
        best
    }

    fn find_entry(&self, v: &str) -> (r: Option<usize>)
        ensures
            r matches Some(i) ==> i < self@.places.len() && entry(self@.places, v@, 0) == Some(
                i as int,
            ),
            r is None ==> entry(self@.places, v@, 0) is None,
    {
        let mut k: usize = 0;
        while k < self.allocations.len()
            invariant
                k <= self.allocations@.len(),
                entry(self@.places, v@, 0) == entry(self@.places, v@, k as int),
            decreases self.allocations@.len() - k,
        {
            assert(self@.places[k as int].0 == self.allocations@[k as int].0@);
            if same(self.allocations[k].0.as_str(), v) {
                return Some(k);
            }
            k = k + 1;
        }
        None
    }

    fn set_place(&mut self, v: &str, p: AllocResult)
        ensures
            final(self)@ == (AllocState { places: put(old(self)@.places, v@, p@), ..old(self)@ }),
    {
        match self.find_entry(v) {
            Some(i) => {
                self.allocations.set(i, (text(v), p));
                assert(self@.places =~= old(self)@.places.update(i as int, (v@, p@)));
            },
            None => {
                self.allocations.push((text(v), p));
                assert(self@.places =~= old(self)@.places.push((v@, p@)));
            },
        }
    }

    fn take(&mut self, reg: &str, v: &str, end: usize)
        ensures
            final(self)@ == (AllocState {
                active: old(self)@.active.push(Holding { reg: reg@, var: v@, end }),
                ..old(self)@
            }),
    {
        self.active.push(Active { reg: text(reg), var: text(v), end });
        assert(self@.active =~= old(self)@.active.push(Holding { reg: reg@, var: v@, end }));
    }

    fn next_slot(&mut self) -> (off: i32)
        ensures
            off == old(self)@.next_off,
            final(self)@ == (AllocState { next_off: down8(off), ..old(self)@ }),
    {
        let off: i32 = self.next_stack_offset;
        self.next_stack_offset = lowered(off);
        off
    }

    /// Allocates a place for a variable that is live in `[start, end)`.  A
    /// variable that has a place keeps it.  Otherwise it gets a free register;
    /// where there is none, the longest-lived of the variables in registers is
    /// spilled if it ends no later than the new one, and else the new one is.
    pub fn allocate(&mut self, var_name: &str, start: usize, end: usize) -> (r: AllocResult)
        ensures
            (final(self)@, r@) == allocated(old(self)@, var_name@, start, end),
    {
        match self.find_entry(var_name) {
            Some(i) => {
                assert(self@.places[i as int].1 == self.allocations@[i as int].1@);
                return copy_result(&self.allocations[i].1);
            },
            None => {},
        }
        self.expire(start);
        match self.find_free() {
            Some(i) => {
                assert(self@.regs[i as int] == self.registers@[i as int]@);
                let reg = self.registers[i].clone();
                self.take(reg.as_str(), var_name, end);
                self.set_place(var_name, AllocResult::Register(reg.clone()));
                AllocResult::Register(reg)
            },
            None => {
                if self.active.len() == 0 {
                    let off: i32 = self.next_slot();
                    self.set_place(var_name, AllocResult::Spilled(off));
                    return AllocResult::Spilled(off);
                }
                let f: usize = self.find_furthest();
                assert(self@.active[f as int] == holding(self.active@[f as int]));
                if self.active[f].end > end {
                    let off: i32 = self.next_slot();
                    self.set_place(var_name, AllocResult::Spilled(off));
                    AllocResult::Spilled(off)
                } else {
                    let reg = self.active[f].reg.clone();
                    let spilled = self.active[f].var.clone();
                    let off: i32 = self.next_slot();
                    self.set_place(spilled.as_str(), AllocResult::Spilled(off));
                    let ghost before = self@;
                    let _gone = self.active.remove(f);
                    assert(self@.active =~= before.active.remove(f as int));
                    self.take(reg.as_str(), var_name, end);
                    self.set_place(var_name, AllocResult::Register(reg.clone()));
                    AllocResult::Register(reg)
                }
            },
        }
    }

    /// The place of a variable that has one.
    pub fn get_allocation(&self, var_name: &str) -> (r: Option<&AllocResult>)
        ensures
            r matches Some(p) ==> place_of(self@.places, var_name@) == Some(p@),
            r is None ==> place_of(self@.places, var_name@) is None,
    {
        match self.find_entry(var_name) {
            Some(i) => {
                assert(self@.places[i as int].1 == self.allocations@[i as int].1@);
                Some(&self.allocations[i].1)
            },
            None => None,
        }
    }

    /// Ends the interval of a live variable behind the present position.
    pub fn mark_last_use(&mut self, var_name: &str)
        ensures
            final(self)@ == (AllocState {
                active: shortened(old(self)@.active, var_name@, bump(old(self)@.pos), 0),
                ..old(self)@
            }),
    {
        let pos: usize = bumped(self.current_pos);
        let mut k: usize = 0;
        while k < self.active.len()
            invariant
                k <= self.active@.len(),
                *self == *old(self),
                pos == bump(old(self)@.pos),
                shortened(self@.active, var_name@, pos, 0) == shortened(
                    self@.active,
                    var_name@,
                    pos,
                    k as int,
                ),
            decreases self.active@.len() - k,
        {
            assert(self@.active[k as int] == holding(self.active@[k as int]));
            if same(self.active[k].var.as_str(), var_name) {
                let a = Active {
                    reg: self.active[k].reg.clone(),
                    var: self.active[k].var.clone(),
                    end: pos,
                };
                self.active.set(k, a);
                assert(self@.active =~= old(self)@.active.update(
                    k as int,
                    Holding { end: pos, ..old(self)@.active[k as int] },
                ));
                return;
            }
            k = k + 1;
        }
    }

    /// The number of registers in use.
    pub fn active_count(&self) -> (r: usize)
        ensures
            r == self@.active.len(),
    {
        self.active.len()
    }

    /// The stack space used for spills.
    pub fn stack_used(&self) -> (r: i32)
        requires
            self@.next_off != i32::MIN,
        ensures
            r == -self@.next_off,
    {
        -self.next_stack_offset
    }

    /// The registers that were given to variables, each once.
    pub fn used_registers(&self) -> (r: Vec<String>)
        ensures
            r@.map_values(|s: String| s@) == registers_of(self@.places, self@.places.len()),
    {
        let mut out: Vec<String> = Vec::new();
        let mut k: usize = 0;
        assert(out@.map_values(|s: String| s@) =~= registers_of(self@.places, 0));
        while k < self.allocations.len()
            invariant
                k <= self.allocations@.len(),
                out@.map_values(|s: String| s@) == registers_of(self@.places, k as nat),
            decreases self.allocations@.len() - k,
        {
            assert(self@.places[k as int].1 == self.allocations@[k as int].1@);
            let ghost before = out@.map_values(|s: String| s@);
            match &self.allocations[k].1 {
                AllocResult::Register(r) => {
                    if !holds_text(&out, r.as_str()) {
                        out.push(r.clone());
                        assert(out@.map_values(|s: String| s@) =~= before.push(r@));
                    }
                },
                AllocResult::Spilled(_) => {},
            }
            k = k + 1;
        }
        out
    }

    /// Forgets all allocations, for a new function.
    pub fn reset(&mut self, initial_stack_offset: i32)
        ensures
            final(self)@ == fresh_alloc(old(self)@.regs, initial_stack_offset),
    {
        self.active = Vec::new();
        self.allocations = Vec::new();
        self.next_stack_offset = initial_stack_offset;
        self.current_pos = 0;
        assert(self@.active =~= Seq::<Holding>::empty());
        assert(self@.places =~= Seq::<(Seq<char>, Place)>::empty());
    }
}

fn holds_text(v: &Vec<String>, t: &str) -> (b: bool)
    ensures
        b == v@.map_values(|s: String| s@).contains(t@),
{
    let ghost all = v@.map_values(|s: String| s@);
    let mut i: usize = 0;
    while i < v.len()
        invariant
            i <= v@.len(),
            all == v@.map_values(|s: String| s@),
            forall|j: int| 0 <= j < i ==> all[j] != t@,
        decreases v@.len() - i,
    {
        assert(all[i as int] == v@[i as int]@);
        if same(v[i].as_str(), t) {
            return true;
        }
        i = i + 1;
    }
    false
}

// ---------------------------------------------------------------------------
// What every state of the allocator keeps
// ---------------------------------------------------------------------------

/// The live variables are in registers of their own: no register and no
/// variable occurs twice, every register is from the pool, and each variable's
/// place is the register that holds it.
pub open spec fn registers_sound(s: AllocState) -> bool {
    &&& forall|i: int, j: int|
        #![trigger s.active[i], s.active[j]]
        0 <= i < j < s.active.len() ==> s.active[i].reg != s.active[j].reg && s.active[i].var
            != s.active[j].var
    &&& forall|i: int|
        0 <= i < s.active.len() ==> s.regs.contains((#[trigger] s.active[i]).reg) && place_of(
            s.places,
            s.active[i].var,
        ) == Some(Place::Register(s.active[i].reg))
}

/// The spilled variables are in stack slots of their own, all above the next
/// one.
pub open spec fn slots_sound(s: AllocState) -> bool {
    &&& forall|i: int|
        0 <= i < s.places.len() ==> ((#[trigger] s.places[i]).1 matches Place::Spilled(o) ==> o
            > s.next_off)
    &&& forall|i: int, j: int|
        #![trigger s.places[i], s.places[j]]
        0 <= i < j < s.places.len() ==> s.places[i].0 != s.places[j].0 && (s.places[i].1
            is Spilled && s.places[j].1 is Spilled ==> s.places[i].1 != s.places[j].1)
}

pub(crate) proof fn lemma_entry(places: Seq<(Seq<char>, Place)>, v: Seq<char>, k: int)
    requires
        0 <= k,
    ensures
        entry(places, v, k) matches Some(i) ==> k <= i < places.len() && places[i].0 == v,
        entry(places, v, k) is None ==> forall|i: int|
            k <= i < places.len() ==> (#[trigger] places[i]).0 != v,
    decreases places.len() - k,
{
    if k < places.len() && places[k].0 != v {
        lemma_entry(places, v, k + 1);
    }
}

proof fn lemma_entry_push(places: Seq<(Seq<char>, Place)>, v: Seq<char>, x: (Seq<char>, Place), k: int)
    requires
        0 <= k <= places.len(),
    ensures
        entry(places.push(x), v, k) == (match entry(places, v, k) {
            Some(i) => Some(i),
            None => if x.0 == v {
                Some(places.len() as int)
            } else {
                None
            },
        }),
    decreases places.len() - k,
{
    if k < places.len() {
        if places[k].0 != v {
            lemma_entry_push(places, v, x, k + 1);
        }
    } else {
        assert(entry(places.push(x), v, k + 1) is None);
    }
}

proof fn lemma_entry_update(
    places: Seq<(Seq<char>, Place)>,
    v: Seq<char>,
    i: int,
    p: Place,
    k: int,
)
    requires
        0 <= i < places.len(),
        0 <= k,
    ensures
        entry(places.update(i, (places[i].0, p)), v, k) == entry(places, v, k),
    decreases places.len() - k,
{
    if k < places.len() && places[k].0 != v {
        lemma_entry_update(places, v, i, p, k + 1);
    }
}

/// Giving one variable a place changes the place of no other variable.
pub(crate) proof fn lemma_put(places: Seq<(Seq<char>, Place)>, v: Seq<char>, p: Place, w: Seq<char>)
    ensures
        place_of(put(places, v, p), w) == (if w == v {
            Some(p)
        } else {
            place_of(places, w)
        }),
{
    lemma_entry(places, v, 0);
    match entry(places, v, 0) {
        Some(i) => {
            lemma_entry_update(places, w, i, p, 0);
            lemma_entry(places, w, 0);
        },
        None => {
            lemma_entry_push(places, w, (v, p), 0);
            lemma_entry(places, w, 0);
        },
    }
}

pub(crate) proof fn lemma_unexpired(s: AllocState, active: Seq<Holding>, pos: usize)
    requires
        registers_sound(AllocState { active, ..s }),
    ensures
        registers_sound(AllocState { active: unexpired(active, pos), ..s }),
        forall|i: int|
            0 <= i < unexpired(active, pos).len() ==> exists|j: int|
                0 <= j < active.len() && active[j] == #[trigger] unexpired(active, pos)[i],
        forall|i: int|
            0 <= i < unexpired(active, pos).len() ==> (#[trigger] unexpired(active, pos)[i]).end
                > pos,
    decreases active.len(),
{
    let out = unexpired(active, pos);
    if active.len() > 0 {
        let init = active.drop_last();
        assert(registers_sound(AllocState { active: init, ..s }));
        lemma_unexpired(s, init, pos);
        let rest = unexpired(init, pos);
        assert forall|i: int| 0 <= i < out.len() implies exists|j: int|
            0 <= j < active.len() && active[j] == #[trigger] out[i] by {
            if i < rest.len() {
                assert(out[i] == rest[i]);
                let j = choose|j: int| 0 <= j < init.len() && init[j] == rest[i];
                assert(active[j] == out[i]);
            } else {
                assert(active[active.len() - 1] == out[i]);
            }
        }
        let t = AllocState { active: out, ..s };
        assert forall|i: int, j: int|
            #![trigger t.active[i], t.active[j]]
            0 <= i < j < t.active.len() implies t.active[i].reg != t.active[j].reg
            && t.active[i].var != t.active[j].var by {
            assert(out[i] == rest[i]);
            let a = choose|a: int| 0 <= a < init.len() && init[a] == rest[i];
            if j < rest.len() {
                assert(out[j] == rest[j]);
                let r = AllocState { active: rest, ..s };
                assert(r.active[i].reg != r.active[j].reg);
            } else {
                let u = AllocState { active, ..s };
                assert(u.active[a].reg != u.active[active.len() - 1].reg);
            }
        }
        assert forall|i: int| 0 <= i < t.active.len() implies s.regs.contains(
            (#[trigger] t.active[i]).reg,
        ) && place_of(s.places, t.active[i].var) == Some(Place::Register(t.active[i].reg)) by {
            let j = choose|j: int| 0 <= j < active.len() && active[j] == out[i];
            let u = AllocState { active, ..s };
            assert(u.active[j] == out[i]);
        }
    }
}

pub(crate) proof fn lemma_furthest(active: Seq<Holding>, k: int)
    requires
        1 <= k <= active.len(),
    ensures
        0 <= furthest(active, k) < k,
        forall|i: int| 0 <= i < k ==> (#[trigger] active[i]).end <= active[furthest(active, k)].end,
    decreases k,
{
    if k > 1 {
        lemma_furthest(active, k - 1);
    }
}

pub(crate) proof fn lemma_first_free(regs: Seq<Seq<char>>, active: Seq<Holding>, k: int)
    requires
        0 <= k,
    ensures
        first_free(regs, active, k) matches Some(i) ==> k <= i < regs.len() && !held(
            active,
            regs[i],
        ),
        first_free(regs, active, k) is None ==> forall|i: int|
            k <= i < regs.len() ==> held(active, #[trigger] regs[i]),
    decreases regs.len() - k,
{
    if k < regs.len() && held(active, regs[k]) {
        lemma_first_free(regs, active, k + 1);
    }
}

/// No two live variables share a register, whatever is allocated next.
pub proof fn law_live_variables_keep_their_registers(
    s: AllocState,
    v: Seq<char>,
    start: usize,
    end: usize,
)
    requires
        registers_sound(s),
    ensures
        registers_sound(allocated(s, v, start, end).0),
{
    if place_of(s.places, v) is None {
        lemma_unexpired(s, s.active, start);
        let active = unexpired(s.active, start);
        let s1 = AllocState { active, ..s };
        lemma_first_free(s.regs, active, 0);
        let t = allocated(s, v, start, end).0;
        match first_free(s.regs, active, 0) {
            Some(i) => {
                assert forall|j: int| 0 <= j < active.len() implies (#[trigger] active[j]).reg
                    != s.regs[i] && active[j].var != v by {
                    assert(s1.active[j] == active[j]);
                }
                assert forall|j: int| 0 <= j < t.active.len() implies s.regs.contains(
                    (#[trigger] t.active[j]).reg,
                ) && place_of(t.places, t.active[j].var) == Some(
                    Place::Register(t.active[j].reg),
                ) by {
                    lemma_put(s.places, v, Place::Register(s.regs[i]), t.active[j].var);
                    if j < active.len() {
                        assert(s1.active[j] == t.active[j]);
                    }
                }
                assert forall|a: int, b: int|
                    #![trigger t.active[a], t.active[b]]
                    0 <= a < b < t.active.len() implies t.active[a].reg != t.active[b].reg
                    && t.active[a].var != t.active[b].var by {
                    assert(t.active[a] == active[a]);
                    assert(s1.active[a] == active[a]);
                    if b < active.len() {
                        assert(s1.active[b] == t.active[b]);
                    }
                }
            },
            None => {
                if active.len() > 0 {
                    lemma_furthest(active, active.len() as int);
                }
                let f = furthest(active, active.len() as int);
                if active.len() == 0 || active[f].end > end {
                    assert forall|j: int| 0 <= j < t.active.len() implies s.regs.contains(
                        (#[trigger] t.active[j]).reg,
                    ) && place_of(t.places, t.active[j].var) == Some(
                        Place::Register(t.active[j].reg),
                    ) by {
                        assert(s1.active[j] == t.active[j]);
                        lemma_put(s.places, v, Place::Spilled(s.next_off), t.active[j].var);
                    }
                    assert forall|a: int, b: int|
                        #![trigger t.active[a], t.active[b]]
                        0 <= a < b < t.active.len() implies t.active[a].reg != t.active[b].reg
                        && t.active[a].var != t.active[b].var by {
                        assert(s1.active[a] == t.active[a]);
                        assert(s1.active[b] == t.active[b]);
                    }
                } else {
                    let reg = active[f].reg;
                    let w = active[f].var;
                    let p1 = put(s.places, w, Place::Spilled(s.next_off));
                    let rest = active.remove(f);
                    assert(s1.active[f] == active[f]);
                    assert forall|j: int| 0 <= j < rest.len() implies (#[trigger] rest[j]).reg
                        != reg && rest[j].var != w && rest[j].var != v && s.regs.contains(
                        rest[j].reg,
                    ) && place_of(s.places, rest[j].var) == Some(Place::Register(rest[j].reg)) by {
                        let o = if j < f {
                            j
                        } else {
                            j + 1
                        };
                        assert(rest[j] == s1.active[o]);
                        if o < f {
                            assert(s1.active[o].reg != s1.active[f].reg);
                        } else {
                            assert(s1.active[f].reg != s1.active[o].reg);
                        }
                    }
                    assert forall|j: int| 0 <= j < t.active.len() implies s.regs.contains(
                        (#[trigger] t.active[j]).reg,
                    ) && place_of(t.places, t.active[j].var) == Some(
                        Place::Register(t.active[j].reg),
                    ) by {
                        lemma_put(s.places, w, Place::Spilled(s.next_off), t.active[j].var);
                        lemma_put(p1, v, Place::Register(reg), t.active[j].var);
                        if j < rest.len() {
                            assert(t.active[j] == rest[j]);
                        }
                    }
                    assert forall|a: int, b: int|
                        #![trigger t.active[a], t.active[b]]
                        0 <= a < b < t.active.len() implies t.active[a].reg != t.active[b].reg
                        && t.active[a].var != t.active[b].var by {
                        assert(t.active[a] == rest[a]);
                        if b < rest.len() {
                            assert(t.active[b] == rest[b]);
                            let x = if a < f {
                                a
                            } else {
                                a + 1
                            };
                            let y = if b < f {
                                b
                            } else {
                                b + 1
                            };
                            assert(rest[a] == s1.active[x]);
                            assert(rest[b] == s1.active[y]);
                        }
                    }
                }
            },
        }
    }
}

proof fn lemma_shortened(s: AllocState, v: Seq<char>, end: usize, k: int)
    requires
        registers_sound(s),
        0 <= k,
    ensures
        registers_sound(AllocState { active: shortened(s.active, v, end, k), ..s }),
    decreases s.active.len() - k,
{
    if k < s.active.len() {
        if s.active[k].var == v {
            let t = AllocState { active: shortened(s.active, v, end, k), ..s };
            assert forall|i: int, j: int|
                #![trigger t.active[i], t.active[j]]
                0 <= i < j < t.active.len() implies t.active[i].reg != t.active[j].reg
                && t.active[i].var != t.active[j].var by {
                assert(s.active[i].reg != s.active[j].reg);
            }
            assert forall|i: int| 0 <= i < t.active.len() implies s.regs.contains(
                (#[trigger] t.active[i]).reg,
            ) && place_of(s.places, t.active[i].var) == Some(Place::Register(t.active[i].reg)) by {
                assert(s.regs.contains(s.active[i].reg));
            }
        } else {
            lemma_shortened(s, v, end, k + 1);
        }
    }
}

/// Ending the interval of a variable early leaves every live variable in its
/// register.
pub proof fn law_last_use_keeps_registers(s: AllocState, v: Seq<char>, end: usize)
    requires
        registers_sound(s),
    ensures
        registers_sound(AllocState { active: shortened(s.active, v, end, 0), ..s }),
{
    lemma_shortened(s, v, end, 0);
}

/// Expiry leaves every variable whose interval goes on in its register.
pub proof fn law_expiry_keeps_registers(s: AllocState, pos: usize)
    requires
        registers_sound(s),
    ensures
        registers_sound(AllocState { active: unexpired(s.active, pos), ..s }),
        forall|i: int|
            0 <= i < unexpired(s.active, pos).len() ==> (#[trigger] unexpired(s.active, pos)[i]).end
                > pos,
{
    lemma_unexpired(s, s.active, pos);
}

/// A new variable is spilled only while every register of the pool holds a
/// variable that is still live.
pub proof fn law_spills_only_when_full(s: AllocState, v: Seq<char>, start: usize, end: usize)
    requires
        place_of(s.places, v) is None,
        allocated(s, v, start, end).1 is Spilled,
    ensures
        forall|i: int|
            0 <= i < s.regs.len() ==> held(unexpired(s.active, start), #[trigger] s.regs[i]),
{
    lemma_first_free(s.regs, unexpired(s.active, start), 0);
}

/// No two variables share a stack slot, whatever is allocated next, as long as
/// the offsets do not run out.
pub proof fn law_spill_slots_are_distinct(s: AllocState, v: Seq<char>, start: usize, end: usize)
    requires
        slots_sound(s),
        s.next_off >= i32::MIN + 8,
    ensures
        slots_sound(allocated(s, v, start, end).0),
{
    if place_of(s.places, v) is None {
        let active = unexpired(s.active, start);
        match first_free(s.regs, active, 0) {
            Some(i) => {
                lemma_put_slots(s, v, Place::Register(s.regs[i]), s.next_off);
            },
            None => {
                let f = furthest(active, active.len() as int);
                if active.len() == 0 || active[f].end > end {
                    lemma_put_slots(s, v, Place::Spilled(s.next_off), down8(s.next_off));
                } else {
                    let w = active[f].var;
                    lemma_put_slots(s, w, Place::Spilled(s.next_off), down8(s.next_off));
                    let s1 = AllocState {
                        places: put(s.places, w, Place::Spilled(s.next_off)),
                        next_off: down8(s.next_off),
                        ..s
                    };
                    lemma_put_slots(s1, v, Place::Register(active[f].reg), s1.next_off);
                }
            },
        }
    }
}

proof fn lemma_put_slots(s: AllocState, v: Seq<char>, p: Place, next: i32)
    requires
        slots_sound(s),
        next <= s.next_off,
        p matches Place::Spilled(o) ==> o == s.next_off && next < s.next_off,
    ensures
        slots_sound(AllocState { places: put(s.places, v, p), next_off: next, ..s }),
{
    lemma_entry(s.places, v, 0);
    let t = AllocState { places: put(s.places, v, p), next_off: next, ..s };
    let at = match entry(s.places, v, 0) {
        Some(i) => i,
        None => s.places.len() as int,
    };
    assert forall|i: int| 0 <= i < t.places.len() implies ((#[trigger] t.places[i]).1
        matches Place::Spilled(o) ==> o > t.next_off) by {
        if i != at {
            assert(t.places[i] == s.places[i]);
        }
    }
    assert forall|i: int, j: int|
        #![trigger t.places[i], t.places[j]]
        0 <= i < j < t.places.len() implies t.places[i].0 != t.places[j].0 && (t.places[i].1
        is Spilled && t.places[j].1 is Spilled ==> t.places[i].1 != t.places[j].1) by {
        if i != at && j != at {
            assert(t.places[i] == s.places[i]);
            assert(t.places[j] == s.places[j]);
        } else if i == at {
            assert(t.places[j] == s.places[j]);
            if at < s.places.len() {
                assert(s.places[at].0 != s.places[j].0);
            }
        } else {
            assert(t.places[i] == s.places[i]);
            if at < s.places.len() {
                assert(s.places[i].0 != s.places[at].0);
            }
        }
    }
}

/// A new allocator, and one that was reset, is sound.
pub proof fn law_fresh_allocator_is_sound(regs: Seq<Seq<char>>, off: i32)
    ensures
        registers_sound(fresh_alloc(regs, off)),
        slots_sound(fresh_alloc(regs, off)),
{
}

/// A variable that has a place keeps it, and nothing else changes.
pub proof fn law_allocation_is_stable(s: AllocState, v: Seq<char>, start: usize, end: usize)
    ensures
        place_of(allocated(s, v, start, end).0.places, v) == Some(allocated(s, v, start, end).1),
        place_of(s.places, v) is Some ==> allocated(s, v, start, end).0 == s,
{
    if place_of(s.places, v) is None {
        let active = unexpired(s.active, start);
        let f = furthest(active, active.len() as int);
        match first_free(s.regs, active, 0) {
            Some(i) => {
                lemma_put(s.places, v, Place::Register(s.regs[i]), v);
            },
            None => {
                lemma_put(s.places, v, Place::Spilled(s.next_off), v);
                lemma_put(
                    put(s.places, active[f].var, Place::Spilled(s.next_off)),
                    v,
                    Place::Register(active[f].reg),
                    v,
                );
            },
        }
    }
}

} // verus!
