//! Linear ownership checker for PIR.
//!
//! Every allocated pointer is a resource that must be consumed by `free`,
//! `consume` or `move` before its scope ends.  Use after move, double free and
//! leaks are errors.

use vstd::prelude::*;
use crate::cstar::pir::{
    Function, functions_of, Node, node_of, nodes_of, Operand, operands, opt_view, Pir, PirNode,
    PirOperand, PirProgram, PirType,
};
use crate::error::CompilerError;
use crate::text::{cat, find, joined, same, text, TextList};

verus! {

/// The state of a resource.
#[derive(Debug, Clone, Copy, PartialEq, Eq, Structural)]
pub enum LinearState {
    MustConsume,
    Moved,
    Consumed,
}

/// A resource: its type, its state, and where it came from.
#[derive(Debug)]
pub struct LinearResource {
    pub ty: PirType,
    pub state: LinearState,
    pub origin: String,
}

/// What a resource is.
pub struct Resource {
    pub ty: PirType,
    pub state: LinearState,
    pub origin: Seq<char>,
}

impl View for LinearResource {
    type V = Resource;

    open spec fn view(&self) -> Resource {
        Resource { ty: self.ty, state: self.state, origin: self.origin@ }
    }
}

/// The name of a state.
pub open spec fn state_name(s: LinearState) -> Seq<char> {
    match s {
        LinearState::MustConsume => "MustConsume"@,
        LinearState::Moved => "Moved"@,
        LinearState::Consumed => "Consumed"@,
    }
}

/// The name of a type other than a pointer.
pub open spec fn type_word(t: PirType) -> Seq<char> {
    match t {
        PirType::Void => "Void"@,
        PirType::I1 => "I1"@,
        PirType::I8 => "I8"@,
        PirType::I32 => "I32"@,
        PirType::I64 => "I64"@,
        PirType::F64 => "F64"@,
        PirType::Ptr(_) => "Ptr"@,
    }
}

/// The resources of a scope, in the order of their first definition.
pub struct Scope {
    pub items: Seq<(Seq<char>, Resource)>,
}

impl Scope {
    /// The position of the resource `v`, at or behind `i`.
    pub open spec fn find(self, v: Seq<char>, i: int) -> Option<int>
        decreases self.items.len() - i,
    {
        if i < 0 || i >= self.items.len() {
            None
        } else if self.items[i].0 == v {
            Some(i)
        } else {
            self.find(v, i + 1)
        }
    }

    /// The resource `v`.
    pub open spec fn get(self, v: Seq<char>) -> Option<Resource> {
        match self.find(v, 0) {
            Some(i) => Some(self.items[i].1),
            None => None,
        }
    }

    /// The scope with the resource `v` set to `r`.
    pub open spec fn set(self, v: Seq<char>, r: Resource) -> Scope {
        match self.find(v, 0) {
            Some(i) => Scope { items: self.items.update(i, (v, r)) },
            None => Scope { items: self.items.push((v, r)) },
        }
    }

    /// `v` is a resource that must still be consumed.
    pub open spec fn live(self, v: Seq<char>) -> bool {
        self.get(v) matches Some(r) && r.state == LinearState::MustConsume
    }

    /// `v` is a resource that has been moved or consumed.
    pub open spec fn spent(self, v: Seq<char>) -> bool {
        self.get(v) matches Some(r) && r.state != LinearState::MustConsume
    }
}

/// A scope without resources.
pub open spec fn no_resources() -> Scope {
    Scope { items: Seq::empty() }
}

// ---------------------------------------------------------------------------
// The rules
// ---------------------------------------------------------------------------

/// The scope in which `v` has been taken from its owner by `op`.
pub open spec fn take(s: Scope, v: Seq<char>, op: Seq<char>, to: LinearState) -> Result<
    Scope,
    Seq<char>,
> {
    match s.get(v) {
        Some(r) => if r.state == LinearState::MustConsume {
            Ok(s.set(v, Resource { state: to, ..r }))
        } else {
            Err(
                "C* linear error: cannot "@ + op + " '"@ + v + "'; resource is already "@ + state_name(r.state),
            )
        },
        None => Err(
            "C* linear error: cannot "@ + op + " '"@ + v + "'; variable is not a live linear ptr resource"@,
        ),
    }
}

/// The reason why `op` may not use an operand; none where it may.
pub open spec fn misuse(s: Scope, o: Operand, op: Seq<char>) -> Option<Seq<char>> {
    match o {
        Operand::Var(v) => match s.get(v) {
            Some(r) => if r.state != LinearState::MustConsume {
                Some("C* linear error: "@ + op + " uses '"@ + v + "' after "@ + state_name(r.state))
            } else {
                None
            },
            None => None,
        },
        _ => None,
    }
}

/// The reason why `op` may not use the operands at and behind `i`.
pub open spec fn misuses(s: Scope, os: Seq<Operand>, i: int, op: Seq<char>) -> Option<Seq<char>>
    decreases os.len() - i,
{
    if i < 0 || i >= os.len() {
        None
    } else {
        match misuse(s, os[i], op) {
            Some(m) => Some(m),
            None => misuses(s, os, i + 1, op),
        }
    }
}

/// The reason for a value that arrives where a live resource is.
pub open spec fn occupied(kind: Seq<char>, dst: Seq<char>, origin: Seq<char>) -> Seq<char> {
    kind + " into '"@ + dst + "' which still holds an unconsumed linear resource (from "@ + origin + ")"@
}

/// The scope with a new resource `dst` that arrives by `kind`.
pub open spec fn give(s: Scope, dst: Seq<char>, ty: PirType, kind: Seq<char>, origin: Seq<char>) -> Result<
    Scope,
    Seq<char>,
> {
    match s.get(dst) {
        Some(r) => if r.state == LinearState::MustConsume {
            Err(occupied(kind, dst, r.origin))
        } else {
            Ok(s.set(dst, Resource { ty, state: LinearState::MustConsume, origin }))
        },
        None => Ok(s.set(dst, Resource { ty, state: LinearState::MustConsume, origin })),
    }
}

/// The scope behind an allocation.
pub open spec fn check_alloc(s: Scope, dst: Seq<char>, ty: PirType) -> Result<Scope, Seq<char>> {
    if !(ty is Ptr) {
        Err("C* AllocLinear for '"@ + dst + "' must produce ptr[T], got "@ + type_word(ty))
    } else if s.live(dst) {
        Err(
            "C* variable '"@ + dst + "' is reassigned while previous linear resource is still live"@,
        )
    } else {
        Ok(
            s.set(
                dst,
                Resource { ty, state: LinearState::MustConsume, origin: "malloc/alloc-linear"@ },
            ),
        )
    }
}

/// The scope behind a move.
pub open spec fn check_move(s: Scope, dst: Seq<char>, src: Seq<char>, ty: PirType) -> Result<
    Scope,
    Seq<char>,
> {
    match take(s, src, "move source"@, LinearState::Moved) {
        Err(m) => Err(m),
        Ok(s1) => if ty is Ptr {
            give(s1, dst, ty, "C* move"@, "move("@ + src + ")"@)
        } else {
            Ok(s1)
        },
    }
}

/// The scope behind a call.
pub open spec fn check_call(
    s: Scope,
    dst: Option<Seq<char>>,
    func: Seq<char>,
    args: Seq<Operand>,
    ret_ty: PirType,
) -> Result<Scope, Seq<char>> {
    match misuses(s, args, 0, func) {
        Some(m) => Err(m),
        None => {
            let released = if func == "free"@ || func == "consume"@ {
                if args.len() > 0 && args[0] is Var {
                    take(s, args[0]->Var_0, func, LinearState::Consumed)
                } else {
                    Err("C* "@ + func + " requires a variable ptr argument"@)
                }
            } else {
                Ok(s)
            };
            match released {
                Err(m) => Err(m),
                Ok(s1) => match dst {
                    Some(d) => if ret_ty is Ptr {
                        give(s1, d, ret_ty, "C* call result"@, "call "@ + func)
                    } else {
                        Ok(s1)
                    },
                    None => Ok(s1),
                },
            }
        },
    }
}

/// The same scope, unless there is a reason against it.
pub open spec fn unless(s: Scope, m: Option<Seq<char>>) -> Result<Scope, Seq<char>> {
    match m {
        Some(x) => Err(x),
        None => Ok(s),
    }
}

/// The scope behind a store.
pub open spec fn check_store(s: Scope, ptr: Operand, value: Operand) -> Result<Scope, Seq<char>> {
    match misuse(s, ptr, "store ptr"@) {
        Some(m) => Err(m),
        None => unless(s, misuse(s, value, "store value"@)),
    }
}

/// The scope behind a node.
pub open spec fn check_node(s: Scope, n: Node) -> Result<Scope, Seq<char>>
    decreases n,
{
    match n {
        Node::AllocLinear { dst, bytes, ty } => check_alloc(s, dst, ty),
        Node::Move { dst, src, ty } => check_move(s, dst, src, ty),
        Node::Consume { var } => take(s, var, "consume"@, LinearState::Consumed),
        Node::Call { dst, func, args, ret_ty } => check_call(s, dst, func, args, ret_ty),
        Node::Load { dst, ptr, ty, volatile } => unless(s, misuse(s, ptr, "load ptr"@)),
        Node::Store { ptr, value, ty, volatile } => check_store(s, ptr, value),
        Node::AsmBlock { template, inputs, outputs } => unless(
            s,
            misuses(s, inputs, 0, "asm input"@),
        ),
        Node::Prefetch { ptr, hint, stride } => match ptr {
            Some(p) => unless(s, misuse(s, p, "prefetch ptr"@)),
            None => Ok(s),
        },
        Node::Loop { label, body } => check_nodes(s, body, 0),
        Node::WhileLoop { label, condition, body } => check_nodes(s, body, 0),
        _ => Ok(s),
    }
}

/// The scope behind the nodes at and behind `i`.
pub open spec fn check_nodes(s: Scope, ns: Seq<Node>, i: nat) -> Result<Scope, Seq<char>>
    decreases ns, ns.len() - i,
{
    if i >= ns.len() {
        Ok(s)
    } else {
        match check_node(s, ns[i as int]) {
            Ok(q) => check_nodes(q, ns, i + 1),
            Err(m) => Err(m),
        }
    }
}

/// The leaks among the first `k` resources of a scope.
pub open spec fn leaks(s: Scope, k: nat) -> Seq<Seq<char>>
    decreases k,
{
    if k == 0 || k > s.items.len() {
        Seq::empty()
    } else {
        let prev = leaks(s, (k - 1) as nat);
        let (v, r) = s.items[k - 1];
        if r.state == LinearState::MustConsume {
            prev.push(v + " allocated at "@ + r.origin)
        } else {
            prev
        }
    }
}

/// The reason why a scope may not end; none where it may.
pub open spec fn leak_message(s: Scope, label: Seq<char>) -> Option<Seq<char>> {
    let l = leaks(s, s.items.len());
    if l.len() > 0 {
        Some(
            "C* linear resource leak in "@ + label + ": ptr resources must be explicitly free/consume/move before leaving scope: "@ + joined(l, ", "@),
        )
    } else {
        None
    }
}

/// The reason why the nodes of a scope are rejected; none where they are not.
pub open spec fn scope_error(ns: Seq<Node>, label: Seq<char>) -> Option<Seq<char>> {
    match check_nodes(no_resources(), ns, 0) {
        Err(m) => Some(m),
        Ok(s) => leak_message(s, label),
    }
}

/// The reason why the functions at and behind `i` are rejected.
pub open spec fn functions_error(fs: Seq<Function>, i: int) -> Option<Seq<char>>
    decreases fs.len() - i,
{
    if i < 0 || i >= fs.len() {
        None
    } else {
        match scope_error(fs[i].body, "function "@ + fs[i].name) {
            Some(m) => Some(m),
            None => functions_error(fs, i + 1),
        }
    }
}

/// The reason why a program is rejected; none where it is not.
pub open spec fn linear_error(p: Pir) -> Option<Seq<char>> {
    match scope_error(p.nodes, "top-level unsafe scope"@) {
        Some(m) => Some(m),
        None => functions_error(p.functions, 0),
    }
}

// ---------------------------------------------------------------------------
// What the rules come to
// ---------------------------------------------------------------------------

/// What happens to a variable.
pub enum Event {
    /// It comes to hold a resource.
    Acquire(Seq<char>),
    /// Its resource is freed, consumed or moved away.
    Release(Seq<char>),
    /// It is read.
    Use(Seq<char>),
}

/// Behind the events, `v` holds a resource that has not been released.
pub open spec fn held(es: Seq<Event>, v: Seq<char>) -> bool
    decreases es.len(),
{
    if es.len() == 0 || es.last() == Event::Release(v) {
        false
    } else if es.last() == Event::Acquire(v) {
        true
    } else {
        held(es.drop_last(), v)
    }
}

/// Behind the events, the resource of `v` has been released and `v` holds no
/// other one.
pub open spec fn gone(es: Seq<Event>, v: Seq<char>) -> bool
    decreases es.len(),
{
    if es.len() == 0 || es.last() == Event::Acquire(v) {
        false
    } else if es.last() == Event::Release(v) {
        true
    } else {
        gone(es.drop_last(), v)
    }
}

/// An event may follow others: a resource is not lost to another one, only a
/// resource that is held is released, and none is used after its release.
pub open spec fn allowed(es: Seq<Event>, e: Event) -> bool {
    match e {
        Event::Acquire(v) => !held(es, v),
        Event::Release(v) => held(es, v),
        Event::Use(v) => !gone(es, v),
    }
}

/// Each event may follow those before it.
pub open spec fn disciplined(es: Seq<Event>) -> bool
    decreases es.len(),
{
    es.len() > 0 ==> disciplined(es.drop_last()) && allowed(es.drop_last(), es.last())
}

/// The events, and then the use of an operand.
pub open spec fn with_use(es: Seq<Event>, o: Operand) -> Seq<Event> {
    match o {
        Operand::Var(v) => es.push(Event::Use(v)),
        _ => es,
    }
}

/// The events, and then the uses of the operands at and behind `i`.
pub open spec fn with_uses(es: Seq<Event>, os: Seq<Operand>, i: int) -> Seq<Event>
    decreases os.len() - i,
{
    if i < 0 || i >= os.len() {
        es
    } else {
        with_uses(with_use(es, os[i]), os, i + 1)
    }
}

/// The events, and then those of a node.
pub open spec fn events(es: Seq<Event>, n: Node) -> Seq<Event>
    decreases n,
{
    match n {
        Node::AllocLinear { dst, bytes, ty } => es.push(Event::Acquire(dst)),
        Node::Move { dst, src, ty } => if ty is Ptr {
            es.push(Event::Release(src)).push(Event::Acquire(dst))
        } else {
            es.push(Event::Release(src))
        },
        Node::Consume { var } => es.push(Event::Release(var)),
        Node::Call { dst, func, args, ret_ty } => {
            let used = with_uses(es, args, 0);
            let freed = if (func == "free"@ || func == "consume"@) && args.len() > 0
                && args[0] is Var {
                used.push(Event::Release(args[0]->Var_0))
            } else {
                used
            };
            if dst is Some && ret_ty is Ptr {
                freed.push(Event::Acquire(dst->Some_0))
            } else {
                freed
            }
        },
        Node::Load { dst, ptr, ty, volatile } => with_use(es, ptr),
        Node::Store { ptr, value, ty, volatile } => with_use(with_use(es, ptr), value),
        Node::AsmBlock { template, inputs, outputs } => with_uses(es, inputs, 0),
        Node::Prefetch { ptr, hint, stride } => match ptr {
            Some(p) => with_use(es, p),
            None => es,
        },
        Node::Loop { label, body } => events_of(es, body, 0),
        Node::WhileLoop { label, condition, body } => events_of(es, body, 0),
        _ => es,
    }
}

/// The events, and then those of the nodes at and behind `i`.
pub open spec fn events_of(es: Seq<Event>, ns: Seq<Node>, i: nat) -> Seq<Event>
    decreases ns, ns.len() - i,
{
    if i >= ns.len() {
        es
    } else {
        events_of(events(es, ns[i as int]), ns, i + 1)
    }
}

/// Allocations give pointers, and `free` and `consume` are called on a variable.
pub open spec fn well_typed(n: Node) -> bool
    decreases n,
{
    match n {
        Node::AllocLinear { dst, bytes, ty } => ty is Ptr,
        Node::Call { dst, func, args, ret_ty } => func == "free"@ || func == "consume"@
            ==> args.len() > 0 && args[0] is Var,
        Node::Loop { label, body } => all_typed(body, 0),
        Node::WhileLoop { label, condition, body } => all_typed(body, 0),
        _ => true,
    }
}

/// The nodes at and behind `i` are well typed.
pub open spec fn all_typed(ns: Seq<Node>, i: nat) -> bool
    decreases ns, ns.len() - i,
{
    i < ns.len() ==> well_typed(ns[i as int]) && all_typed(ns, i + 1)
}

/// The ownership rules of a scope: each resource that it acquires is released
/// once, and none is used after that.
pub open spec fn linear(ns: Seq<Node>) -> bool {
    let es = events_of(Seq::empty(), ns, 0);
    all_typed(ns, 0) && disciplined(es) && forall|v: Seq<char>| !held(es, v)
}

/// No variable occurs twice.
spec fn distinct(s: Scope) -> bool {
    forall|i: int, j: int|
        0 <= i < j < s.items.len() ==> (#[trigger] s.items[i]).0 != (#[trigger] s.items[j]).0
}

/// The scope knows what has happened.
spec fn knows(s: Scope, es: Seq<Event>) -> bool {
    &&& distinct(s)
    &&& forall|v: Seq<char>| #[trigger] s.live(v) == held(es, v)
    &&& forall|v: Seq<char>| #[trigger] s.spent(v) == gone(es, v)
}

/// The position that `find` gives.
proof fn lemma_find(s: Scope, v: Seq<char>, i: int)
    requires
        0 <= i,
    ensures
        s.find(v, i) matches Some(k) ==> i <= k < s.items.len() && s.items[k].0 == v,
        s.find(v, i) is None ==> forall|k: int|
            i <= k < s.items.len() ==> (#[trigger] s.items[k]).0 != v,
    decreases s.items.len() - i,
{
    if i < s.items.len() && s.items[i].0 != v {
        lemma_find(s, v, i + 1);
    }
}

/// In a scope without double entries, the entry at `k` is what `get` gives.
proof fn lemma_get_at(s: Scope, k: int)
    requires
        distinct(s),
        0 <= k < s.items.len(),
    ensures
        s.get(s.items[k].0) == Some(s.items[k].1),
{
    lemma_find(s, s.items[k].0, 0);
}

/// What `get` gives behind `set`.
proof fn lemma_set(s: Scope, v: Seq<char>, r: Resource)
    requires
        distinct(s),
    ensures
        distinct(s.set(v, r)),
        s.set(v, r).get(v) == Some(r),
        forall|w: Seq<char>| w != v ==> #[trigger] s.set(v, r).get(w) == s.get(w),
{
    let t = s.set(v, r);
    lemma_find(s, v, 0);
    let at = match s.find(v, 0) {
        Some(i) => i,
        None => s.items.len() as int,
    };
    assert(t.items[at] == (v, r));
    lemma_get_at(t, at);
    assert forall|w: Seq<char>| w != v implies #[trigger] t.get(w) == s.get(w) by {
        lemma_find(s, w, 0);
        lemma_find(t, w, 0);
        match s.find(w, 0) {
            Some(k) => {
                assert(t.items[k] == s.items[k]);
                lemma_get_at(t, k);
            },
            None => {
                assert(forall|k: int|
                    0 <= k < t.items.len() && k != at ==> (#[trigger] t.items[k]).0
                        == s.items[k].0);
            },
        }
    }
}

/// What one more event changes.
proof fn lemma_event(es: Seq<Event>, e: Event, v: Seq<char>)
    ensures
        held(es.push(e), v) == if e == Event::Release(v) {
            false
        } else if e == Event::Acquire(v) {
            true
        } else {
            held(es, v)
        },
        gone(es.push(e), v) == if e == Event::Acquire(v) {
            false
        } else if e == Event::Release(v) {
            true
        } else {
            gone(es, v)
        },
        disciplined(es.push(e)) == (disciplined(es) && allowed(es, e)),
{
    assert(es.push(e).drop_last() =~= es);
}

/// A resource is taken exactly where its release is allowed.
proof fn lemma_take(s: Scope, es: Seq<Event>, v: Seq<char>, op: Seq<char>, to: LinearState)
    requires
        knows(s, es),
        to != LinearState::MustConsume,
    ensures
        take(s, v, op, to) is Ok <==> allowed(es, Event::Release(v)),
        take(s, v, op, to) matches Ok(t) ==> knows(t, es.push(Event::Release(v))),
{
    assert(s.live(v) == held(es, v));
    match s.get(v) {
        Some(r) => {
            let n = Resource { state: to, ..r };
            lemma_set(s, v, n);
            let t = s.set(v, n);
            let all = es.push(Event::Release(v));
            assert forall|w: Seq<char>| #[trigger] t.live(w) == held(all, w) by {
                lemma_event(es, Event::Release(v), w);
                assert(s.live(w) == held(es, w));
            }
            assert forall|w: Seq<char>| #[trigger] t.spent(w) == gone(all, w) by {
                lemma_event(es, Event::Release(v), w);
                assert(s.spent(w) == gone(es, w));
            }
        },
        None => {},
    }
}

/// A resource that arrives where none is held.
proof fn lemma_arrives(s: Scope, es: Seq<Event>, v: Seq<char>, r: Resource)
    requires
        knows(s, es),
        r.state == LinearState::MustConsume,
    ensures
        s.live(v) == !allowed(es, Event::Acquire(v)),
        knows(s.set(v, r), es.push(Event::Acquire(v))),
{
    lemma_set(s, v, r);
    let t = s.set(v, r);
    let all = es.push(Event::Acquire(v));
    assert forall|w: Seq<char>| #[trigger] t.live(w) == held(all, w) by {
        lemma_event(es, Event::Acquire(v), w);
        assert(s.live(w) == held(es, w));
    }
    assert forall|w: Seq<char>| #[trigger] t.spent(w) == gone(all, w) by {
        lemma_event(es, Event::Acquire(v), w);
        assert(s.spent(w) == gone(es, w));
    }
}

/// A resource is given exactly where its arrival is allowed.
proof fn lemma_give(
    s: Scope,
    es: Seq<Event>,
    dst: Seq<char>,
    ty: PirType,
    kind: Seq<char>,
    origin: Seq<char>,
)
    requires
        knows(s, es),
    ensures
        give(s, dst, ty, kind, origin) is Ok <==> allowed(es, Event::Acquire(dst)),
        give(s, dst, ty, kind, origin) matches Ok(t) ==> knows(t, es.push(Event::Acquire(dst))),
{
    lemma_arrives(s, es, dst, Resource { ty, state: LinearState::MustConsume, origin });
}

/// An operand is used exactly where its use is allowed.
proof fn lemma_misuse(s: Scope, es: Seq<Event>, o: Operand, op: Seq<char>)
    requires
        knows(s, es),
        disciplined(es),
    ensures
        misuse(s, o, op) is None <==> disciplined(with_use(es, o)),
        knows(s, with_use(es, o)),
{
    match o {
        Operand::Var(v) => {
            let e = Event::Use(v);
            lemma_event(es, e, v);
            assert(s.spent(v) == gone(es, v));
            assert forall|w: Seq<char>| #[trigger] s.live(w) == held(es.push(e), w) by {
                lemma_event(es, e, w);
                assert(s.live(w) == held(es, w));
            }
            assert forall|w: Seq<char>| #[trigger] s.spent(w) == gone(es.push(e), w) by {
                lemma_event(es, e, w);
                assert(s.spent(w) == gone(es, w));
            }
        },
        _ => {},
    }
}

/// Events that go on from undisciplined ones are undisciplined.
proof fn lemma_uses_prefix(es: Seq<Event>, os: Seq<Operand>, i: int)
    ensures
        disciplined(with_uses(es, os, i)) ==> disciplined(es),
    decreases os.len() - i,
{
    if 0 <= i < os.len() {
        lemma_uses_prefix(with_use(es, os[i]), os, i + 1);
        match os[i] {
            Operand::Var(v) => {
                lemma_event(es, Event::Use(v), v);
            },
            _ => {},
        }
    }
}

/// Operands are used exactly where their uses are allowed.
proof fn lemma_misuses(s: Scope, es: Seq<Event>, os: Seq<Operand>, i: int, op: Seq<char>)
    requires
        knows(s, es),
        disciplined(es),
    ensures
        misuses(s, os, i, op) is None <==> disciplined(with_uses(es, os, i)),
        misuses(s, os, i, op) is None ==> knows(s, with_uses(es, os, i)),
    decreases os.len() - i,
{
    if 0 <= i < os.len() {
        lemma_misuse(s, es, os[i], op);
        lemma_uses_prefix(with_use(es, os[i]), os, i + 1);
        if misuse(s, os[i], op) is None {
            lemma_misuses(s, with_use(es, os[i]), os, i + 1, op);
        }
    }
}

/// Events that go on from undisciplined ones are undisciplined.
proof fn lemma_node_prefix(es: Seq<Event>, n: Node)
    ensures
        disciplined(events(es, n)) ==> disciplined(es),
    decreases n,
{
    match n {
        Node::AllocLinear { dst, bytes, ty } => {
            lemma_event(es, Event::Acquire(dst), dst);
        },
        Node::Move { dst, src, ty } => {
            lemma_event(es, Event::Release(src), src);
            lemma_event(es.push(Event::Release(src)), Event::Acquire(dst), dst);
        },
        Node::Consume { var } => {
            lemma_event(es, Event::Release(var), var);
        },
        Node::Call { dst, func, args, ret_ty } => {
            lemma_uses_prefix(es, args, 0);
            lemma_call_prefix(es, dst, func, args, ret_ty);
        },
        Node::Load { dst, ptr, ty, volatile } => {
            lemma_uses_prefix(es, seq![ptr], 0);
            lemma_one_use(es, ptr);
        },
        Node::Store { ptr, value, ty, volatile } => {
            lemma_one_use(es, ptr);
            lemma_one_use(with_use(es, ptr), value);
        },
        Node::AsmBlock { template, inputs, outputs } => {
            lemma_uses_prefix(es, inputs, 0);
        },
        Node::Prefetch { ptr, hint, stride } => match ptr {
            Some(p) => {
                lemma_one_use(es, p);
            },
            None => {},
        },
        Node::Loop { label, body } => {
            lemma_nodes_prefix(es, body, 0);
        },
        Node::WhileLoop { label, condition, body } => {
            lemma_nodes_prefix(es, body, 0);
        },
        _ => {},
    }
}

/// A use goes on from disciplined events.
proof fn lemma_one_use(es: Seq<Event>, o: Operand)
    ensures
        disciplined(with_use(es, o)) ==> disciplined(es),
{
    match o {
        Operand::Var(v) => {
            lemma_event(es, Event::Use(v), v);
        },
        _ => {},
    }
}

/// The events of a call behind its uses go on from them.
proof fn lemma_call_prefix(
    es: Seq<Event>,
    dst: Option<Seq<char>>,
    func: Seq<char>,
    args: Seq<Operand>,
    ret_ty: PirType,
)
    ensures
        disciplined(events(es, Node::Call { dst, func, args, ret_ty })) ==> disciplined(
            with_uses(es, args, 0),
        ),
{
    let used = with_uses(es, args, 0);
    let freed = if (func == "free"@ || func == "consume"@) && args.len() > 0 && args[0] is Var {
        let v = args[0]->Var_0;
        lemma_event(used, Event::Release(v), v);
        used.push(Event::Release(v))
    } else {
        used
    };
    if dst is Some {
        lemma_event(freed, Event::Acquire(dst->Some_0), dst->Some_0);
    }
}

/// Events that go on from undisciplined ones are undisciplined.
proof fn lemma_nodes_prefix(es: Seq<Event>, ns: Seq<Node>, i: nat)
    ensures
        disciplined(events_of(es, ns, i)) ==> disciplined(es),
    decreases ns, ns.len() - i,
{
    if i < ns.len() {
        lemma_nodes_prefix(events(es, ns[i as int]), ns, i + 1);
        lemma_node_prefix(es, ns[i as int]);
    }
}

/// A call is accepted exactly where its events are allowed.
proof fn lemma_call(
    s: Scope,
    es: Seq<Event>,
    dst: Option<Seq<char>>,
    func: Seq<char>,
    args: Seq<Operand>,
    ret_ty: PirType,
)
    requires
        knows(s, es),
        disciplined(es),
    ensures
        ({
            let n = Node::Call { dst, func, args, ret_ty };
            let r = check_call(s, dst, func, args, ret_ty);
            &&& r is Ok <==> well_typed(n) && disciplined(events(es, n))
            &&& r matches Ok(t) ==> knows(t, events(es, n))
        }),
{
    let used = with_uses(es, args, 0);
    lemma_misuses(s, es, args, 0, func);
    lemma_call_prefix(es, dst, func, args, ret_ty);
    if misuses(s, args, 0, func) is None {
        let frees = func == "free"@ || func == "consume"@;
        if !(frees && !(args.len() > 0 && args[0] is Var)) {
            let v = args[0]->Var_0;
            if frees {
                lemma_take(s, used, v, func, LinearState::Consumed);
                lemma_event(used, Event::Release(v), v);
            }
            let released = if frees {
                take(s, v, func, LinearState::Consumed)
            } else {
                Ok(s)
            };
            let freed = if frees {
                used.push(Event::Release(v))
            } else {
                used
            };
            if dst is Some {
                lemma_event(freed, Event::Acquire(dst->Some_0), dst->Some_0);
            }
            match released {
                Ok(s1) => {
                    if dst is Some && ret_ty is Ptr {
                        lemma_give(
                            s1,
                            freed,
                            dst->Some_0,
                            ret_ty,
                            "C* call result"@,
                            "call "@ + func,
                        );
                    }
                },
                Err(_) => {},
            }
        }
    }
}

/// A node is accepted exactly where its events are allowed.
proof fn lemma_node(s: Scope, es: Seq<Event>, n: Node)
    requires
        knows(s, es),
        disciplined(es),
    ensures
        check_node(s, n) is Ok <==> well_typed(n) && disciplined(events(es, n)),
        check_node(s, n) matches Ok(t) ==> knows(t, events(es, n)),
    decreases n,
{
    match n {
        Node::AllocLinear { dst, bytes, ty } => {
            lemma_event(es, Event::Acquire(dst), dst);
            lemma_arrives(
                s,
                es,
                dst,
                Resource { ty, state: LinearState::MustConsume, origin: "malloc/alloc-linear"@ },
            );
        },
        Node::Move { dst, src, ty } => {
            lemma_take(s, es, src, "move source"@, LinearState::Moved);
            lemma_event(es, Event::Release(src), src);
            let e1 = es.push(Event::Release(src));
            lemma_event(e1, Event::Acquire(dst), dst);
            match take(s, src, "move source"@, LinearState::Moved) {
                Ok(s1) => {
                    lemma_give(s1, e1, dst, ty, "C* move"@, "move("@ + src + ")"@);
                },
                Err(_) => {},
            }
        },
        Node::Consume { var } => {
            lemma_take(s, es, var, "consume"@, LinearState::Consumed);
            lemma_event(es, Event::Release(var), var);
        },
        Node::Call { dst, func, args, ret_ty } => {
            lemma_call(s, es, dst, func, args, ret_ty);
        },
        Node::Load { dst, ptr, ty, volatile } => {
            lemma_misuse(s, es, ptr, "load ptr"@);
        },
        Node::Store { ptr, value, ty, volatile } => {
            lemma_misuse(s, es, ptr, "store ptr"@);
            lemma_one_use(with_use(es, ptr), value);
            if misuse(s, ptr, "store ptr"@) is None {
                lemma_misuse(s, with_use(es, ptr), value, "store value"@);
            }
        },
        Node::AsmBlock { template, inputs, outputs } => {
            lemma_misuses(s, es, inputs, 0, "asm input"@);
        },
        Node::Prefetch { ptr, hint, stride } => match ptr {
            Some(p) => {
                lemma_misuse(s, es, p, "prefetch ptr"@);
            },
            None => {},
        },
        Node::Loop { label, body } => {
            lemma_nodes(s, es, body, 0);
        },
        Node::WhileLoop { label, condition, body } => {
            lemma_nodes(s, es, body, 0);
        },
        _ => {},
    }
}

/// Nodes are accepted exactly where their events are allowed.
proof fn lemma_nodes(s: Scope, es: Seq<Event>, ns: Seq<Node>, i: nat)
    requires
        knows(s, es),
        disciplined(es),
    ensures
        check_nodes(s, ns, i) is Ok <==> all_typed(ns, i) && disciplined(events_of(es, ns, i)),
        check_nodes(s, ns, i) matches Ok(t) ==> knows(t, events_of(es, ns, i)),
    decreases ns, ns.len() - i,
{
    if i < ns.len() {
        let n = ns[i as int];
        lemma_node(s, es, n);
        lemma_nodes_prefix(events(es, n), ns, i + 1);
        match check_node(s, n) {
            Ok(t) => {
                lemma_nodes(t, events(es, n), ns, i + 1);
            },
            Err(_) => {},
        }
    }
}

/// There are leaks exactly where a resource is live.
proof fn lemma_leaks(s: Scope, k: nat)
    requires
        k <= s.items.len(),
    ensures
        leaks(s, k).len() > 0 <==> exists|i: int|
            0 <= i < k && (#[trigger] s.items[i]).1.state == LinearState::MustConsume,
    decreases k,
{
    if k > 0 {
        lemma_leaks(s, (k - 1) as nat);
        if s.items[k - 1].1.state == LinearState::MustConsume {
            assert(s.items[k - 1].1.state == LinearState::MustConsume);
        }
    }
}

/// A scope is accepted exactly where it keeps the ownership rules: whatever it
/// allocates, moves in or gets from a call it releases, and it neither releases
/// twice nor uses what it has released.
pub proof fn law_accepted_scopes_are_linear(ns: Seq<Node>, label: Seq<char>)
    ensures
        scope_error(ns, label) is None <==> linear(ns),
{
    let none = Seq::<Event>::empty();
    let s0 = no_resources();
    assert forall|v: Seq<char>| #[trigger] s0.live(v) == held(none, v) by {
        lemma_find(s0, v, 0);
    }
    assert forall|v: Seq<char>| #[trigger] s0.spent(v) == gone(none, v) by {
        lemma_find(s0, v, 0);
    }
    lemma_nodes(s0, none, ns, 0);
    let es = events_of(none, ns, 0);
    match check_nodes(s0, ns, 0) {
        Ok(s) => {
            lemma_leaks(s, s.items.len());
            if leaks(s, s.items.len()).len() > 0 {
                let i = choose|i: int|
                    0 <= i < s.items.len() && (#[trigger] s.items[i]).1.state
                        == LinearState::MustConsume;
                lemma_get_at(s, i);
                assert(s.live(s.items[i].0));
                assert(held(es, s.items[i].0));
            } else {
                assert forall|v: Seq<char>| !held(es, v) by {
                    if held(es, v) {
                        assert(s.live(v));
                        lemma_find(s, v, 0);
                    }
                }
            }
        },
        Err(_) => {},
    }
}

/// A program is accepted exactly where all its scopes keep the ownership rules.
pub proof fn law_accepted_programs_are_linear(p: Pir)
    ensures
        linear_error(p) is None <==> linear(p.nodes) && forall|i: int|
            0 <= i < p.functions.len() ==> linear((#[trigger] p.functions[i]).body),
{
    law_accepted_scopes_are_linear(p.nodes, "top-level unsafe scope"@);
    lemma_functions(p.functions, 0);
}

/// Functions are accepted exactly where all of them keep the rules.
proof fn lemma_functions(fs: Seq<Function>, k: int)
    requires
        0 <= k,
    ensures
        functions_error(fs, k) is None <==> forall|i: int|
            k <= i < fs.len() ==> linear((#[trigger] fs[i]).body),
    decreases fs.len() - k,
{
    if k < fs.len() {
        law_accepted_scopes_are_linear(fs[k].body, "function "@ + fs[k].name);
        lemma_functions(fs, k + 1);
    }
}

/// After a release, a variable is neither used nor released again before it
/// acquires another resource.
pub proof fn law_no_use_after_release(es: Seq<Event>, i: int, j: int, v: Seq<char>)
    requires
        disciplined(es),
        0 <= i < j < es.len(),
        es[i] == Event::Release(v),
        es[j] == Event::Use(v) || es[j] == Event::Release(v),
    ensures
        exists|k: int| i < k < j && #[trigger] es[k] == Event::Acquire(v),
{
    lemma_disciplined_at(es, j);
    lemma_released(es.take(j), i, v);
    if exists|k: int| i < k < j && #[trigger] es.take(j)[k] == Event::Acquire(v) {
        let k = choose|k: int| i < k < j && #[trigger] es.take(j)[k] == Event::Acquire(v);
        assert(es[k] == Event::Acquire(v));
    } else {
        lemma_not_both(es.take(j), v);
    }
}

/// Every resource that a scope acquires is released later.
pub proof fn law_every_resource_is_released(es: Seq<Event>, i: int, v: Seq<char>)
    requires
        forall|w: Seq<char>| !held(es, w),
        0 <= i < es.len(),
        es[i] == Event::Acquire(v),
    ensures
        exists|k: int| i < k < es.len() && #[trigger] es[k] == Event::Release(v),
{
    assert(!held(es, v));
    lemma_acquired(es, i, v);
}

/// Each event of disciplined events may follow those before it.
proof fn lemma_disciplined_at(es: Seq<Event>, j: int)
    requires
        disciplined(es),
        0 <= j < es.len(),
    ensures
        allowed(es.take(j), es[j]),
    decreases es.len(),
{
    if j == es.len() - 1 {
        assert(es.take(j) =~= es.drop_last());
    } else {
        lemma_disciplined_at(es.drop_last(), j);
        assert(es.drop_last().take(j) =~= es.take(j));
    }
}

/// A released variable is gone until it acquires another resource.
proof fn lemma_released(es: Seq<Event>, i: int, v: Seq<char>)
    requires
        0 <= i < es.len(),
        es[i] == Event::Release(v),
    ensures
        gone(es, v) || exists|k: int| i < k < es.len() && #[trigger] es[k] == Event::Acquire(v),
    decreases es.len(),
{
    let l = es.len() - 1;
    if es.last() == Event::Acquire(v) {
        assert(es[l] == Event::Acquire(v));
    } else if i < l {
        let rest = es.drop_last();
        lemma_released(rest, i, v);
        if exists|k: int| i < k < rest.len() && #[trigger] rest[k] == Event::Acquire(v) {
            let k = choose|k: int| i < k < rest.len() && #[trigger] rest[k] == Event::Acquire(v);
            assert(es[k] == Event::Acquire(v));
        }
    }
}

/// A variable that acquired a resource holds it until it is released.
proof fn lemma_acquired(es: Seq<Event>, i: int, v: Seq<char>)
    requires
        0 <= i < es.len(),
        es[i] == Event::Acquire(v),
    ensures
        held(es, v) || exists|k: int| i < k < es.len() && #[trigger] es[k] == Event::Release(v),
    decreases es.len(),
{
    let l = es.len() - 1;
    if es.last() == Event::Release(v) {
        assert(es[l] == Event::Release(v));
    } else if i < l {
        let rest = es.drop_last();
        lemma_acquired(rest, i, v);
        if exists|k: int| i < k < rest.len() && #[trigger] rest[k] == Event::Release(v) {
            let k = choose|k: int| i < k < rest.len() && #[trigger] rest[k] == Event::Release(v);
            assert(es[k] == Event::Release(v));
        }
    }
}

/// No variable is held and gone at once.
proof fn lemma_not_both(es: Seq<Event>, v: Seq<char>)
    ensures
        !(held(es, v) && gone(es, v)),
    decreases es.len(),
{
    if es.len() > 0 {
        lemma_not_both(es.drop_last(), v);
    }
}

// ---------------------------------------------------------------------------
// The checker
// ---------------------------------------------------------------------------

/// The checker of one scope.
pub struct LinearChecker {
    resources: Vec<(String, LinearResource)>,
}

impl View for LinearChecker {
    type V = Scope;

    closed spec fn view(&self) -> Scope {
        Scope {
            items: Seq::new(
                self.resources@.len(),
                |i: int| (self.resources@[i].0@, self.resources@[i].1@),
            ),
        }
    }
}

/// What a step of the checker has come to.
pub open spec fn checked(r: Result<(), CompilerError>, c: LinearChecker) -> Result<
    Scope,
    Seq<char>,
> {
    match r {
        Ok(_) => Ok(c@),
        Err(e) => Err(e.text()),
    }
}

/// What an examination has come to.
pub open spec fn verdict(r: Result<(), CompilerError>) -> Option<Seq<char>> {
    match r {
        Ok(_) => None,
        Err(e) => Some(e.text()),
    }
}

/// The name of a state.
fn state_text(s: LinearState) -> (r: &'static str)
    ensures
        r@ == state_name(s),
{
    match s {
        LinearState::MustConsume => "MustConsume",
        LinearState::Moved => "Moved",
        LinearState::Consumed => "Consumed",
    }
}

/// The name of a type other than a pointer.
fn type_text(t: &PirType) -> (r: &'static str)
    ensures
        r@ == type_word(*t),
{
    match t {
        PirType::Void => "Void",
        PirType::I1 => "I1",
        PirType::I8 => "I8",
        PirType::I32 => "I32",
        PirType::I64 => "I64",
        PirType::F64 => "F64",
        PirType::Ptr(_) => "Ptr",
    }
}

impl LinearChecker {
    /// A checker for a new scope.
    pub fn new() -> (r: Self)
        ensures
            r@ == no_resources(),
    {
        let r = LinearChecker { resources: Vec::new() };
        assert(r@.items =~= Seq::<(Seq<char>, Resource)>::empty());
        r
    }

    /// Checks the linear rules of a program.
    pub fn check(program: &PirProgram) -> (r: Result<(), CompilerError>)
        ensures
            verdict(r) == linear_error(program@),
    {
        match Self::check_scope(&program.nodes, "top-level unsafe scope") {
            Ok(_) => {},
            Err(m) => {
                return Err(m);
            },
        }
        let fs = &program.functions;
        let mut i: usize = 0;
        while i < fs.len()
            invariant
                fs@ == program.functions@,
                i <= fs@.len(),
                functions_error(functions_of(fs@), 0) == functions_error(
                    functions_of(fs@),
                    i as int,
                ),
                linear_error(program@) == functions_error(functions_of(fs@), 0),
            decreases fs@.len() - i,
        {
            assert(functions_of(fs@)[i as int] == fs@[i as int]@);
            let label = cat("function ", fs[i].name.as_str());
            match Self::check_scope(&fs[i].body, label.as_str()) {
                Ok(_) => {},
                Err(m) => {
                    return Err(m);
                },
            }
            i = i + 1;
        }
        Ok(())
    }

    /// Checks the nodes of a scope.
    fn check_scope(ns: &Vec<PirNode>, label: &str) -> (r: Result<(), CompilerError>)
        ensures
            verdict(r) == scope_error(nodes_of(ns@), label@),
    {
        let mut c = LinearChecker::new();
        match c.check_list(ns) {
            Ok(_) => {},
            Err(m) => {
                return Err(m);
            },
        }
        c.finish_scope(label)
    }

    /// Checks that the scope may end.
    fn finish_scope(&self, label: &str) -> (r: Result<(), CompilerError>)
        ensures
            verdict(r) == leak_message(self@, label@),
    {
        let mut l = TextList::new();
        let mut k: usize = 0;
        while k < self.resources.len()
            invariant
                k <= self.resources@.len(),
                self@.items.len() == self.resources@.len(),
                l@ == leaks(self@, k as nat),
            decreases self.resources@.len() - k,
        {
            let e = &self.resources[k];
            assert(self@.items[k as int] == (e.0@, e.1@));
            if e.1.state == LinearState::MustConsume {
                let mut s = e.0.clone();
                s.append(" allocated at ");
                s.append(e.1.origin.as_str());
                l.push(s);
            }
            k = k + 1;
        }
        if l.len() > 0 {
            let list = l.join(", ");
            let mut m = text("C* linear resource leak in ");
            m.append(label);
            m.append(": ptr resources must be explicitly free/consume/move before leaving scope: ");
            m.append(list.as_str());
            return Err(CompilerError::codegen_error(m));
        }
        Ok(())
    }

    /// The position of a resource.
    fn position(&self, v: &str) -> (r: Option<usize>)
        ensures
            match r {
                Some(i) => self@.find(v@, 0) == Some(i as int) && i < self.resources@.len(),
                None => self@.find(v@, 0) is None,
            },
    {
        let mut i: usize = 0;
        while i < self.resources.len()
            invariant
                i <= self.resources@.len(),
                self@.items.len() == self.resources@.len(),
                self@.find(v@, 0) == self@.find(v@, i as int),
            decreases self.resources@.len() - i,
        {
            if same(self.resources[i].0.as_str(), v) {
                return Some(i);
            }
            i = i + 1;
        }
        None
    }

    /// Sets a resource.
    fn set(&mut self, v: &str, r: LinearResource)
        ensures
            final(self)@ == old(self)@.set(v@, r@),
    {
        match self.position(v) {
            Some(i) => {
                self.resources.set(i, (text(v), r));
                assert(self@.items =~= old(self)@.set(v@, r@).items);
            },
            None => {
                self.resources.push((text(v), r));
                assert(self@.items =~= old(self)@.set(v@, r@).items);
            },
        }
    }

    /// Takes a live resource from its owner.
    fn mark(&mut self, v: &str, op: &str, to: LinearState) -> (r: Result<(), CompilerError>)
        ensures
            checked(r, *final(self)) == take(old(self)@, v@, op@, to),
    {
        match self.position(v) {
            Some(i) => {
                let state: LinearState = self.resources[i].1.state;
                if state == LinearState::MustConsume {
                    let res = LinearResource {
                        ty: self.resources[i].1.ty.copy(),
                        state: to,
                        origin: self.resources[i].1.origin.clone(),
                    };
                    self.set(v, res);
                    Ok(())
                } else {
                    let mut m = text("C* linear error: cannot ");
                    m.append(op);
                    m.append(" '");
                    m.append(v);
                    m.append("'; resource is already ");
                    m.append(state_text(state));
                    Err(CompilerError::codegen_error(m))
                }
            },
            None => {
                let mut m = text("C* linear error: cannot ");
                m.append(op);
                m.append(" '");
                m.append(v);
                m.append("'; variable is not a live linear ptr resource");
                Err(CompilerError::codegen_error(m))
            },
        }
    }

    /// Checks that an operand has not been moved or consumed.
    fn ensure_usable(&self, o: &PirOperand, op: &str) -> (r: Result<(), CompilerError>)
        ensures
            verdict(r) == misuse(self@, o@, op@),
    {
        let v = match o.as_var() {
            Some(v) => v,
            None => {
                return Ok(());
            },
        };
        match self.position(v) {
            Some(i) => {
                let state: LinearState = self.resources[i].1.state;
                if state != LinearState::MustConsume {
                    let mut m = text("C* linear error: ");
                    m.append(op);
                    m.append(" uses '");
                    m.append(v);
                    m.append("' after ");
                    m.append(state_text(state));
                    return Err(CompilerError::codegen_error(m));
                }
            },
            None => {},
        }
        Ok(())
    }

    /// Checks that no operand has been moved or consumed.
    fn ensure_all_usable(&self, os: &Vec<PirOperand>, op: &str) -> (r: Result<(), CompilerError>)
        ensures
            verdict(r) == misuses(self@, operands(os@), 0, op@),
    {
        let mut i: usize = 0;
        while i < os.len()
            invariant
                i <= os@.len(),
                misuses(self@, operands(os@), 0, op@) == misuses(
                    self@,
                    operands(os@),
                    i as int,
                    op@,
                ),
            decreases os@.len() - i,
        {
            assert(operands(os@)[i as int] == os@[i as int]@);
            match self.ensure_usable(&os[i], op) {
                Ok(_) => {},
                Err(m) => {
                    return Err(m);
                },
            }
            i = i + 1;
        }
        Ok(())
    }

    /// Adds a resource that arrives by `kind`.
    fn receive(&mut self, dst: &str, ty: &PirType, kind: &str, origin: String) -> (r: Result<
        (),
        CompilerError,
    >)
        ensures
            checked(r, *final(self)) == give(old(self)@, dst@, *ty, kind@, origin@),
    {
        match self.position(dst) {
            Some(i) => {
                if self.resources[i].1.state == LinearState::MustConsume {
                    let mut m = text(kind);
                    m.append(" into '");
                    m.append(dst);
                    m.append("' which still holds an unconsumed linear resource (from ");
                    m.append(self.resources[i].1.origin.as_str());
                    m.append(")");
                    return Err(CompilerError::codegen_error(m));
                }
            },
            None => {},
        }
        self.set(
            dst,
            LinearResource { ty: ty.copy(), state: LinearState::MustConsume, origin },
        );
        Ok(())
    }

    /// Checks an allocation.
    fn check_allocation(&mut self, dst: &str, ty: &PirType) -> (r: Result<(), CompilerError>)
        ensures
            checked(r, *final(self)) == check_alloc(old(self)@, dst@, *ty),
    {
        if !ty.is_ptr() {
            let mut m = text("C* AllocLinear for '");
            m.append(dst);
            m.append("' must produce ptr[T], got ");
            m.append(type_text(ty));
            return Err(CompilerError::codegen_error(m));
        }
        match self.position(dst) {
            Some(i) => {
                if self.resources[i].1.state == LinearState::MustConsume {
                    let mut m = text("C* variable '");
                    m.append(dst);
                    m.append("' is reassigned while previous linear resource is still live");
                    return Err(CompilerError::codegen_error(m));
                }
            },
            None => {},
        }
        self.set(
            dst,
            LinearResource {
                ty: ty.copy(),
                state: LinearState::MustConsume,
                origin: text("malloc/alloc-linear"),
            },
        );
        Ok(())
    }

    /// Checks a move.
    fn check_transfer(&mut self, dst: &str, src: &str, ty: &PirType) -> (r: Result<
        (),
        CompilerError,
    >)
        ensures
            checked(r, *final(self)) == check_move(old(self)@, dst@, src@, *ty),
    {
        match self.mark(src, "move source", LinearState::Moved) {
            Ok(_) => {},
            Err(m) => {
                return Err(m);
            },
        }
        if ty.is_ptr() {
            let mut origin = text("move(");
            origin.append(src);
            origin.append(")");
            return self.receive(dst, ty, "C* move", origin);
        }
        Ok(())
    }

    /// Checks a call.
    fn check_raw_call(
        &mut self,
        dst: &Option<String>,
        func: &str,
        args: &Vec<PirOperand>,
        ret_ty: &PirType,
    ) -> (r: Result<(), CompilerError>)
        ensures
            checked(r, *final(self)) == check_call(
                old(self)@,
                opt_view(*dst),
                func@,
                operands(args@),
                *ret_ty,
            ),
    {
        match self.ensure_all_usable(args, func) {
            Ok(_) => {},
            Err(m) => {
                return Err(m);
            },
        }
        if same(func, "free") || same(func, "consume") {
            let var: Option<&str> = if args.len() > 0 {
                assert(operands(args@)[0] == args@[0]@);
                args[0].as_var()
            } else {
                None
            };
            match var {
                Some(v) => match self.mark(v, func, LinearState::Consumed) {
                    Ok(_) => {},
                    Err(m) => {
                        return Err(m);
                    },
                },
                None => {
                    let mut m = text("C* ");
                    m.append(func);
                    m.append(" requires a variable ptr argument");
                    return Err(CompilerError::codegen_error(m));
                },
            }
        }
        match dst {
            Some(d) => {
                if ret_ty.is_ptr() {
                    return self.receive(d.as_str(), ret_ty, "C* call result", cat("call ", func));
                }
            },
            None => {},
        }
        Ok(())
    }

    /// Checks a node.
    fn check_node(&mut self, n: &PirNode) -> (r: Result<(), CompilerError>)
        ensures
            checked(r, *final(self)) == check_node(old(self)@, n@),
        decreases n, 1nat,
    {
        match n {
            PirNode::AllocLinear { dst, bytes: _, ty } => self.check_allocation(dst.as_str(), ty),
            PirNode::Move { dst, src, ty } => self.check_transfer(dst.as_str(), src.as_str(), ty),
            PirNode::Consume { var } => self.mark(var.as_str(), "consume", LinearState::Consumed),
            PirNode::Call { dst, func, args, ret_ty } => self.check_raw_call(
                dst,
                func.as_str(),
                args,
                ret_ty,
            ),
            PirNode::Load { dst: _, ptr, ty: _, volatile: _ } => self.ensure_usable(
                ptr,
                "load ptr",
            ),
            PirNode::Store { ptr, value, ty: _, volatile: _ } => {
                match self.ensure_usable(ptr, "store ptr") {
                    Ok(_) => self.ensure_usable(value, "store value"),
                    Err(m) => Err(m),
                }
            },
            PirNode::AsmBlock { template: _, inputs, outputs: _ } => self.ensure_all_usable(
                inputs,
                "asm input",
            ),
            PirNode::Prefetch { ptr, hint: _, stride: _ } => match ptr {
                Some(p) => self.ensure_usable(p, "prefetch ptr"),
                None => Ok(()),
            },
            PirNode::Loop { label: _, body } => self.check_list(body),
            PirNode::WhileLoop { label: _, condition: _, body } => self.check_list(body),
            _ => Ok(()),
        }
    }

    /// Checks nodes one after the other.
    fn check_list(&mut self, ns: &Vec<PirNode>) -> (r: Result<(), CompilerError>)
        ensures
            checked(r, *final(self)) == check_nodes(old(self)@, nodes_of(ns@), 0),
        decreases ns@, 0nat,
    {
        let mut i: usize = 0;
        while i < ns.len()
            invariant
                i <= ns@.len(),
                check_nodes(old(self)@, nodes_of(ns@), 0) == check_nodes(
                    self@,
                    nodes_of(ns@),
                    i as nat,
                ),
            decreases ns@.len() - i,
        {
            assert(nodes_of(ns@)[i as int] == node_of(ns@[i as int]));
            match self.check_node(&ns[i]) {
                Ok(_) => {},
                Err(m) => {
                    return Err(m);
                },
            }
            i = i + 1;
        }
        Ok(())
    }
}

} // verus!
