//! The kinds of promise nodes: immediate values, transformations, chains, joins
//! and forks.
//!
//! Each node states the set of results it may produce (`outcomes`); each kind of
//! node proves that what it produces is in that set.

use vstd::prelude::*;
use vstd::std_specs::convert::IntoSpec;
use crate::cells::{FreeCell, GuardedCell};
use std::rc::Rc;
use crate::{EventLoop, Promise};
use super::{arm_result, SharedHub, is_held_elsewhere, Event, EventDropper, GuardedEventHandle, NodeBox, OnReadyEvent, OwnerToken,
            PromiseNode, Watch};

verus! {

/// A function on a promise's result that a `Transform` applies.
pub trait ResultFn<A, B> {
    /// Whether `call` may be made.
    spec fn callable(&self) -> bool;

    /// Whether `call` may turn `a` into `b`.
    spec fn maps(&self, a: A, b: B) -> bool;

    fn call(self, a: A) -> (b: B)
        requires
            self.callable(),
        ensures
            self.maps(a, b),
    ;
}

/// `f` may be called on any argument.
pub open spec fn accepts_all<A, B, F: FnOnce(A) -> B>(f: F) -> bool {
    forall|a: A| call_requires(f, (a,))
}

/// What `func` may turn the members of `results` into.
pub open spec fn transformed<A, B, F: ResultFn<A, B>>(results: Set<A>, func: F) -> Set<B> {
    Set::new(|b: B| exists|a: A| results.contains(a) && func.maps(a, b))
}

/// The results of a promise for a promise, once the inner promise has resolved too:
/// what the inner promises may resolve to, and the outer errors.
pub open spec fn flattened<T, E>(results: Set<Result<Promise<T, E>, E>>) -> Set<Result<T, E>> {
    Set::new(|r: Result<T, E>| exists|x: Result<Promise<T, E>, E>| results.contains(x) && match x {
        Ok(p) => p.outcomes().contains(r),
        Err(e) => r == Err::<T, E>(e),
    })
}

/// Applies `f` to the whole result.
pub struct Direct<F> {
    pub f: F,
}

impl<A, B, F: FnOnce(A) -> B> ResultFn<A, B> for Direct<F> {
    open spec fn callable(&self) -> bool {
        accepts_all(self.f)
    }

    open spec fn maps(&self, a: A, b: B) -> bool {
        call_ensures(self.f, (a,), b)
    }

    fn call(self, a: A) -> B {
        (self.f)(a)
    }
}

/// Applies `f` to a value and passes errors through.
pub struct OnOk<F> {
    pub f: F,
}

impl<T, E, R, F: FnOnce(T) -> Result<R, E>> ResultFn<Result<T, E>, Result<R, E>> for OnOk<F> {
    open spec fn callable(&self) -> bool {
        accepts_all(self.f)
    }

    open spec fn maps(&self, a: Result<T, E>, b: Result<R, E>) -> bool {
        match a {
            Ok(v) => call_ensures(self.f, (v,), b),
            Err(e) => b == Err::<R, E>(e),
        }
    }

    fn call(self, a: Result<T, E>) -> Result<R, E> {
        match a {
            Ok(v) => (self.f)(v),
            Err(e) => Err(e),
        }
    }
}

/// Applies `f` to an error and passes values through.
pub struct OnErr<F> {
    pub f: F,
}

impl<T, E, E1, F: FnOnce(E) -> E1> ResultFn<Result<T, E>, Result<T, E1>> for OnErr<F> {
    open spec fn callable(&self) -> bool {
        accepts_all(self.f)
    }

    open spec fn maps(&self, a: Result<T, E>, b: Result<T, E1>) -> bool {
        match (a, b) {
            (Ok(v), Ok(w)) => v == w,
            (Err(e), Err(e1)) => call_ensures(self.f, (e,), e1),
            _ => false,
        }
    }

    fn call(self, a: Result<T, E>) -> Result<T, E1> {
        match a {
            Ok(v) => Ok(v),
            Err(e) => Err((self.f)(e)),
        }
    }
}

/// Turns the whole result into the promise of the next step.
pub struct ThenElse<F> {
    pub f: F,
}

impl<T, E, T1, E1, F: FnOnce(Result<T, E>) -> Promise<T1, E1>> ResultFn<Result<T, E>, Result<Promise<T1, E1>, E1>> for ThenElse<F> {
    open spec fn callable(&self) -> bool {
        accepts_all(self.f)
    }

    open spec fn maps(&self, a: Result<T, E>, b: Result<Promise<T1, E1>, E1>) -> bool {
        b matches Ok(p) && call_ensures(self.f, (a,), p)
    }

    fn call(self, a: Result<T, E>) -> Result<Promise<T1, E1>, E1> {
        Ok((self.f)(a))
    }
}

/// Turns a value into the promise of the next step, and passes errors through.
pub struct ThenOk<F> {
    pub f: F,
}

impl<T, E, T1, F: FnOnce(T) -> Promise<T1, E>> ResultFn<Result<T, E>, Result<Promise<T1, E>, E>> for ThenOk<F> {
    open spec fn callable(&self) -> bool {
        accepts_all(self.f)
    }

    open spec fn maps(&self, a: Result<T, E>, b: Result<Promise<T1, E>, E>) -> bool {
        match a {
            Ok(v) => b matches Ok(p) && call_ensures(self.f, (v,), p),
            Err(e) => b == Err::<Promise<T1, E>, E>(e),
        }
    }

    fn call(self, a: Result<T, E>) -> Result<Promise<T1, E>, E> {
        match a {
            Ok(v) => Ok((self.f)(v)),
            Err(e) => Err(e),
        }
    }
}

/// Turns a value into an already fulfilled promise of it, and passes errors
/// through.
pub struct Reresolve;

impl<T: 'static, E: 'static> ResultFn<Result<T, E>, Result<Promise<T, E>, E>> for Reresolve {
    open spec fn callable(&self) -> bool {
        true
    }

    open spec fn maps(&self, a: Result<T, E>, b: Result<Promise<T, E>, E>) -> bool {
        match a {
            Ok(v) => b matches Ok(p) && p.outcomes() == Set::<Result<T, E>>::empty().insert(Ok(v)),
            Err(e) => b == Err::<Promise<T, E>, E>(e),
        }
    }

    fn call(self, a: Result<T, E>) -> Result<Promise<T, E>, E> {
        match a {
            Ok(v) => Ok(Promise::ok(v)),
            Err(e) => Err(e),
        }
    }
}

/// Converts the error with `Into`.
pub struct IntoErr;

impl<T, E: Into<E1>, E1> ResultFn<Result<T, E>, Result<T, E1>> for IntoErr {
    open spec fn callable(&self) -> bool {
        true
    }

    open spec fn maps(&self, a: Result<T, E>, b: Result<T, E1>) -> bool {
        match (a, b) {
            (Ok(v), Ok(w)) => v == w,
            (Err(e), Err(e1)) => <E as IntoSpec<E1>>::obeys_into_spec() ==> e1 == e.into_spec(),
            _ => false,
        }
    }

    fn call(self, a: Result<T, E>) -> Result<T, E1> {
        match a {
            Ok(v) => Ok(v),
            Err(e) => Err(e.into()),
        }
    }
}

/// Passes the result through, and drops `value` once it has.
pub struct Keep<U> {
    pub value: U,
}

impl<A, U> ResultFn<A, A> for Keep<U> {
    open spec fn callable(&self) -> bool {
        true
    }

    open spec fn maps(&self, a: A, b: A) -> bool {
        a == b
    }

    fn call(self, a: A) -> A {
        a
    }
}

/// A node that applies `func` to the result of `dependency` (implements `map()`).
#[verifier::reject_recursive_types(T)]
#[verifier::reject_recursive_types(E)]
#[verifier::reject_recursive_types(E1)]
#[verifier::reject_recursive_types(DepT)]
pub struct Transform<T, E, E1, DepT, Func>
    where Func: ResultFn<Result<DepT, E>, Result<T, E1>>
{
    dependency: NodeBox<DepT, E>,
    func: Func,
    phantom: std::marker::PhantomData<(T, E1)>,
}

impl<T, E: 'static, E1, DepT: 'static, Func> Transform<T, E, E1, DepT, Func>
    where Func: ResultFn<Result<DepT, E>, Result<T, E1>>
{
    #[verifier::type_invariant]
    spec fn func_callable(self) -> bool {
        self.func.callable()
    }

    pub fn new(dependency: NodeBox<DepT, E>, func: Func) -> (t: Transform<T, E, E1, DepT, Func>)
        requires
            func.callable(),
        ensures
            t.outcomes() == transformed(dependency.outcomes(), func),
            t.ready() == dependency.ready(),
    {
        Transform { dependency, func, phantom: std::marker::PhantomData }
    }
}

impl<T, E: 'static, E1, DepT: 'static, Func> PromiseNode<T, E1> for Transform<T, E, E1, DepT, Func>
    where Func: ResultFn<Result<DepT, E>, Result<T, E1>>
{
    closed spec fn outcomes(&self) -> Set<Result<T, E1>> {
        transformed(self.dependency.outcomes(), self.func)
    }

    closed spec fn ready(&self) -> bool {
        self.dependency.ready()
    }

    closed spec fn settled(&self) -> Option<Result<T, E1>> {
        None
    }

    closed spec fn fed_by(&self) -> Option<Rc<SharedHub<T, E1>>> {
        None
    }

    fn shows_ready(&self) -> (b: bool) {
        self.dependency.shows_ready()
    }

    fn on_ready(&mut self, event: GuardedEventHandle) {
        proof {
            use_type_invariant(&*self);
        }
        let mut dependency = NodeBox { node: Box::new(NeverDone::new()) };
        std::mem::swap(&mut dependency, &mut self.dependency);
        dependency.on_ready(event);
        std::mem::swap(&mut dependency, &mut self.dependency);
    }

    fn get(self: Box<Self>) -> (r: Option<Result<T, E1>>) {
        proof {
            use_type_invariant(&*self);
        }
        let Transform { dependency, func, phantom } = *self;
        match dependency.get() {
            Some(x) => Some(func.call(x)),
            None => None,
        }
    }
}

/// A node whose result is already known.
#[verifier::reject_recursive_types(T)]
#[verifier::reject_recursive_types(E)]
pub struct Immediate<T, E> {
    pub result: Result<T, E>,
}

impl<T, E> Immediate<T, E> {
    pub fn new(result: Result<T, E>) -> (r: Immediate<T, E>)
        ensures
            r.result == result,
    {
        Immediate { result }
    }
}

impl<T, E> PromiseNode<T, E> for Immediate<T, E> {
    open spec fn outcomes(&self) -> Set<Result<T, E>> {
        Set::empty().insert(self.result)
    }

    open spec fn ready(&self) -> bool {
        true
    }

    open spec fn settled(&self) -> Option<Result<T, E>> {
        Some(self.result)
    }

    open spec fn fed_by(&self) -> Option<Rc<SharedHub<T, E>>> {
        None
    }

    fn shows_ready(&self) -> (b: bool) {
        true
    }

    fn on_ready(&mut self, event: GuardedEventHandle) {
        event.arm_breadth_first();
    }

    fn get(self: Box<Self>) -> (r: Option<Result<T, E>>)
        ensures
            r == Some(self.result),
    {
        Some(self.result)
    }
}

/// A node that never produces a result.
#[verifier::reject_recursive_types(T)]
#[verifier::reject_recursive_types(E)]
pub struct NeverDone<T, E> {
    phantom_data: std::marker::PhantomData<Result<T, E>>,
}

impl<T, E> NeverDone<T, E> {
    pub fn new() -> (n: NeverDone<T, E>)
        ensures
            n.outcomes() == Set::<Result<T, E>>::empty(),
    {
        NeverDone { phantom_data: std::marker::PhantomData }
    }
}

impl<T, E> PromiseNode<T, E> for NeverDone<T, E> {
    open spec fn outcomes(&self) -> Set<Result<T, E>> {
        Set::empty()
    }

    open spec fn ready(&self) -> bool {
        false
    }

    open spec fn settled(&self) -> Option<Result<T, E>> {
        None
    }

    open spec fn fed_by(&self) -> Option<Rc<SharedHub<T, E>>> {
        None
    }

    fn shows_ready(&self) -> (b: bool) {
        false
    }

    fn on_ready(&mut self, _event: GuardedEventHandle) {
    }

    fn get(self: Box<Self>) -> Option<Result<T, E>> {
        None
    }
}


/// The chain that holds the promise of another chain, as seen from that other
/// chain.
pub trait ChainParent<T, E> {
    /// What the holding chain may resolve to.
    spec fn bound(&self) -> Set<Result<T, E>>;

    /// Whether the holding chain's promise still exists.
    fn is_live(&self) -> bool;

    /// Makes `node` what the holding chain waits for, in place of the chain it
    /// held.
    fn install(&self, node: NodeBox<T, E>)
        requires
            node.outcomes().subset_of(self.bound()),
    ;
}

/// A holding chain, boxed.
#[verifier::reject_recursive_types(T)]
#[verifier::reject_recursive_types(E)]
pub struct Parent<T, E> {
    link: Box<dyn ChainParent<T, E>>,
}

impl<T, E> Parent<T, E> {
    pub closed spec fn bound(&self) -> Set<Result<T, E>> {
        self.link.bound()
    }
}

/// A slot may name a parent only if everything the slot's chain produces is
/// something the parent may produce.
pub open spec fn parent_bounds<T, E>(results: Set<Result<T, E>>) -> spec_fn(Option<Parent<T, E>>) -> bool {
    |p: Option<Parent<T, E>>| p matches Some(x) ==> results.subset_of(x.bound())
}

/// Where a chain learns which chain holds it. The event loop clears it once the
/// holding chain is gone, so that it keeps nothing alive.
#[verifier::reject_recursive_types(T)]
#[verifier::reject_recursive_types(E)]
pub struct ChainSlot<T, E> {
    parent: GuardedCell<Option<Parent<T, E>>>,
    results: Ghost<Set<Result<T, E>>>,
}

impl<T, E> ChainSlot<T, E> {
    #[verifier::type_invariant]
    spec fn parent_bounded(self) -> bool {
        self.parent.inv() == parent_bounds(self.results@)
    }

    /// What the chain of this slot may resolve to.
    pub closed spec fn results(&self) -> Set<Result<T, E>> {
        self.results@
    }

    fn new(results: Ghost<Set<Result<T, E>>>) -> (s: ChainSlot<T, E>)
        ensures
            s.results() == results@,
    {
        ChainSlot { parent: GuardedCell::new(None, Ghost(parent_bounds(results@))), results }
    }

    fn take_parent(&self) -> (p: Option<Parent<T, E>>)
        ensures
            p matches Some(x) ==> self.results().subset_of(x.bound()),
    {
        proof {
            use_type_invariant(self);
        }
        self.parent.replace(None)
    }

    fn put_parent(&self, p: Option<Parent<T, E>>)
        requires
            p matches Some(x) ==> self.results().subset_of(x.bound()),
    {
        proof {
            use_type_invariant(self);
        }
        let _ = self.parent.replace(p);
    }
}

/// The progress of a chain: waiting for the promise that the first step produces,
/// then waiting for that promise, then done.
#[verifier::reject_recursive_types(T)]
#[verifier::reject_recursive_types(E)]
pub enum ChainState<T, E> {
    Step1(NodeBox<Promise<T, E>, E>, Option<GuardedEventHandle>),
    Step2(NodeBox<T, E>),
    Step3,
}

/// A chain's state may only lead to results among `results`.
pub open spec fn state_bounds<T, E>(results: Set<Result<T, E>>) -> spec_fn(ChainState<T, E>) -> bool {
    |st: ChainState<T, E>| match st {
        ChainState::Step1(inner, _) => flattened(inner.outcomes()).subset_of(results),
        ChainState::Step2(p) => p.outcomes().subset_of(results),
        ChainState::Step3 => true,
    }
}

/// The shared state of a chain: its progress, the token that tells whether its
/// promise still exists, its slot, and what it may resolve to.
#[verifier::reject_recursive_types(T)]
#[verifier::reject_recursive_types(E)]
pub struct ChainCell<T, E> {
    state: GuardedCell<ChainState<T, E>>,
    alive: Rc<OwnerToken>,
    slot: Rc<ChainSlot<T, E>>,
    results: Ghost<Set<Result<T, E>>>,
}

impl<T, E> ChainCell<T, E> {
    #[verifier::type_invariant]
    spec fn bounded(self) -> bool {
        &&& self.state.inv() == state_bounds(self.results@)
        &&& self.slot.results() == self.results@
    }

    pub closed spec fn results(&self) -> Set<Result<T, E>> {
        self.results@
    }

    fn take(&self) -> (st: ChainState<T, E>)
        ensures
            state_bounds(self.results())(st),
    {
        proof {
            use_type_invariant(self);
        }
        self.state.replace(ChainState::Step3)
    }

    fn put(&self, st: ChainState<T, E>)
        requires
            state_bounds(self.results())(st),
    {
        proof {
            use_type_invariant(self);
        }
        let _ = self.state.replace(st);
    }

    fn slot_results_agree(&self)
        ensures
            self.slot.results() == self.results(),
    {
        proof {
            use_type_invariant(self);
        }
    }
}

#[verifier::reject_recursive_types(T)]
#[verifier::reject_recursive_types(E)]
struct ChainRef<T, E> {
    cell: Rc<ChainCell<T, E>>,
}

impl<T, E> ChainParent<T, E> for ChainRef<T, E> {
    closed spec fn bound(&self) -> Set<Result<T, E>> {
        self.cell.results()
    }

    fn is_live(&self) -> bool {
        is_held_elsewhere(&self.cell.alive)
    }

    fn install(&self, node: NodeBox<T, E>) {
        self.cell.put(ChainState::Step2(node));
    }
}

/// Records in `slot` that `parent` holds its chain, and has the event loop drop
/// the record once `parent` is gone.
fn set_parent<T: 'static, E: 'static>(slot: &Rc<ChainSlot<T, E>>, parent: Parent<T, E>, event_loop: &EventLoop)
    requires
        slot.results().subset_of(parent.bound()),
{
    slot.put_parent(Some(parent));
    event_loop.add_watch(Box::new(SlotWatch { slot: slot.clone() }));
}

/// Drops a slot's parent once the parent chain is gone, or once nothing else holds
/// the slot.
#[verifier::reject_recursive_types(T)]
#[verifier::reject_recursive_types(E)]
struct SlotWatch<T, E> {
    slot: Rc<ChainSlot<T, E>>,
}

impl<T, E> Watch for SlotWatch<T, E> {
    fn poll(&mut self) -> bool {
        let parent = self.slot.take_parent();
        if crate::cells::strong_count(&self.slot) <= 1 {
            return true;
        }
        match parent {
            Some(p) => {
                if p.link.is_live() {
                    self.slot.put_parent(Some(p));
                    false
                } else {
                    true
                }
            },
            None => true,
        }
    }
}

/// The event of a chain: fires when the first step's promise is ready.
#[verifier::reject_recursive_types(T)]
#[verifier::reject_recursive_types(E)]
pub struct ChainEvent<T, E> {
    cell: Rc<ChainCell<T, E>>,
    event_loop: EventLoop,
}

/// The second step of a chain, once the first step's promise `inner` is ready:
/// the node of the promise it resolved to, with `event` registered on it, and
/// that promise's slot. An error of `inner` gives a node rejected with it; an
/// `inner` that gives nothing, which never shows its result, gives a node that
/// never resolves.
fn second_step<T: 'static, E: 'static>(inner: NodeBox<Promise<T, E>, E>, event: Option<GuardedEventHandle>)
    -> (r: (NodeBox<T, E>, Option<Rc<ChainSlot<T, E>>>))
    ensures
        r.0.outcomes().subset_of(flattened(inner.outcomes())),
        r.1 matches Some(s) ==> s.results() == r.0.outcomes(),
        inner.settled() matches Some(Ok(q)) ==> r.0.outcomes() == q.outcomes() && r.0.settled() == q.settled(),
        inner.settled() matches Some(Err(e)) ==> r.0.settled() == Some(Err::<T, E>(e)),
{
    let ghost outer = inner.outcomes();
    let r = inner.get();
    let next: Promise<T, E> = match r {
        Some(Ok(intermediate)) => {
            proof {
                assert(outer.contains(Ok(intermediate)));
                assert forall|x: Result<T, E>| intermediate.outcomes().contains(x) implies
                    flattened(outer).contains(x) by {
                    assert(outer.contains(Ok(intermediate)));
                }
            }
            intermediate
        },
        Some(Err(e)) => {
            proof {
                assert(flattened(outer).contains(Err(e)));
            }
            Promise::err(e)
        },
        None => Promise::never_done(),
    };
    let (mut next_node, next_slot) = next.into_parts();
    match event {
        Some(event) => next_node.on_ready(event),
        None => {},
    }
    (next_node, next_slot)
}

/// The node that an advanced chain goes on with: the one handed to the holding
/// chain, or else the one its second step holds.
pub open spec fn advanced_node<T, E>(r: (ChainState<T, E>, Option<NodeBox<T, E>>, Option<Rc<ChainSlot<T, E>>>)) -> NodeBox<T, E> {
    match r.1 {
        Some(n) => n,
        None => r.0->Step2_0,
    }
}

/// What `advance` does to the state `s0` of a chain whose holding chain is still
/// there (`parent_live`) or not, giving `r`: in the first step, the chain goes on
/// with the node of the promise that the first step's promise resolved to, with
/// its waiting event registered on it. A live holding chain is handed that node
/// and this chain is done (third step); otherwise the chain keeps it as its second
/// step. Any other state stays as it was, and nothing is handed on.
pub open spec fn chain_advanced<T, E>(
    s0: ChainState<T, E>,
    parent_live: bool,
    r: (ChainState<T, E>, Option<NodeBox<T, E>>, Option<Rc<ChainSlot<T, E>>>),
) -> bool {
    match s0 {
        ChainState::Step1(inner, _) => {
            let n = advanced_node(r);
            &&& parent_live ==> r.0 is Step3 && r.1 is Some
            &&& !parent_live ==> r.0 is Step2 && r.1 is None
            &&& n.outcomes().subset_of(flattened(inner.outcomes()))
            &&& r.2 matches Some(s) ==> s.results() == n.outcomes()
            &&& inner.settled() matches Some(Ok(q)) ==> n.outcomes() == q.outcomes() && n.settled() == q.settled()
            &&& inner.settled() matches Some(Err(e)) ==> n.settled() == Some(Err::<T, E>(e))
        },
        _ => r.0 == s0 && r.1 is None && r.2 is None,
    }
}

impl<T: 'static, E: 'static> ChainState<T, E> {
    pub fn is_first_step(&self) -> (b: bool)
        ensures
            b == (*self is Step1),
    {
        match self {
            ChainState::Step1(..) => true,
            _ => false,
        }
    }

    /// Moves the chain on once its first step's promise is ready: see
    /// `chain_advanced`. Also returns the slot of the promise it goes on with.
    pub fn advance(self, parent_live: bool) -> (r: (ChainState<T, E>, Option<NodeBox<T, E>>, Option<Rc<ChainSlot<T, E>>>))
        ensures
            chain_advanced(self, parent_live, r),
    {
        match self {
            ChainState::Step1(inner, on_ready_event) => {
                let (next_node, next_slot) = second_step(inner, on_ready_event);
                if parent_live {
                    (ChainState::Step3, Some(next_node), next_slot)
                } else {
                    (ChainState::Step2(next_node), None, next_slot)
                }
            },
            other => (other, None, None),
        }
    }
}

impl<T: 'static, E: 'static> Event for ChainEvent<T, E> {
    fn fire(&mut self) {
        let state = self.cell.take();
        if !state.is_first_step() {
            self.cell.put(state);
            return;
        }
        self.cell.slot_results_agree();
        let parent = self.cell.slot.take_parent();
        let parent_live = match &parent {
            Some(p) => p.link.is_live(),
            None => false,
        };
        let ghost s0 = state;
        let (next_state, handed, next_slot) = state.advance(parent_live);
        match handed {
            Some(node) => {
                // The holding chain waits for the next promise itself, which drops
                // this chain.
                match parent {
                    Some(p) => {
                        p.link.install(node);
                        match next_slot {
                            Some(ns) => set_parent(&ns, p, &self.event_loop),
                            None => {},
                        }
                    },
                    None => {},
                }
                self.cell.put(next_state);
            },
            None => {
                match parent {
                    Some(_) => {},
                    None => {
                        match next_slot {
                            Some(ns) => {
                                let me = Parent { link: Box::new(ChainRef { cell: self.cell.clone() }) };
                                set_parent(&ns, me, &self.event_loop);
                            },
                            None => {},
                        }
                    },
                }
                self.cell.put(next_state);
            },
        }
    }
}

/// A node that reduces a `Promise<Promise<T, E>, E>` to a `Promise<T, E>`.
#[verifier::reject_recursive_types(T)]
#[verifier::reject_recursive_types(E)]
pub struct Chain<T, E> {
    cell: Rc<ChainCell<T, E>>,
    dropper: EventDropper,
    alive: Rc<OwnerToken>,
}

impl<T: 'static, E: 'static> Chain<T, E> {
    /// A chain over `inner`, and the slot through which a chain that comes to hold
    /// this one makes itself known.
    pub fn new(event_loop: &EventLoop, inner: NodeBox<Promise<T, E>, E>) -> (r: (Chain<T, E>, Rc<ChainSlot<T, E>>))
        ensures
            r.0.outcomes() == flattened(inner.outcomes()),
            r.1.results() == r.0.outcomes(),
    {
        let ghost results = flattened(inner.outcomes());
        let mut inner = inner;
        let alive = Rc::new(OwnerToken);
        let slot = Rc::new(ChainSlot::new(Ghost(results)));
        let cell = Rc::new(ChainCell {
            state: GuardedCell::new(ChainState::Step3, Ghost(state_bounds(results))),
            alive: alive.clone(),
            slot: slot.clone(),
            results: Ghost(results),
        });
        let (handle, dropper) = GuardedEventHandle::new(event_loop);
        handle.set(Box::new(ChainEvent { cell: cell.clone(), event_loop: event_loop.clone() }));
        inner.on_ready(handle);
        cell.put(ChainState::Step1(inner, None));
        (Chain { cell, dropper, alive }, slot)
    }
}

impl<T: 'static, E: 'static> PromiseNode<T, E> for Chain<T, E> {
    closed spec fn outcomes(&self) -> Set<Result<T, E>> {
        self.cell.results()
    }

    closed spec fn ready(&self) -> bool {
        false
    }

    closed spec fn settled(&self) -> Option<Result<T, E>> {
        None
    }

    closed spec fn fed_by(&self) -> Option<Rc<SharedHub<T, E>>> {
        None
    }

    fn shows_ready(&self) -> (b: bool) {
        false
    }

    fn on_ready(&mut self, event: GuardedEventHandle) {
        let state = self.cell.take();
        match state {
            ChainState::Step2(mut inner) => {
                inner.on_ready(event);
                self.cell.put(ChainState::Step2(inner));
            },
            ChainState::Step1(inner, None) => {
                self.cell.put(ChainState::Step1(inner, Some(event)));
            },
            other => {
                self.cell.put(other);
            },
        }
    }

    fn get(self: Box<Self>) -> (r: Option<Result<T, E>>) {
        let state = self.cell.take();
        match state {
            ChainState::Step2(inner) => inner.get(),
            _ => None,
        }
    }
}

/// How far one branch of `Promise::all` has got.
#[verifier::reject_recursive_types(T)]
#[verifier::reject_recursive_types(E)]
pub enum ArrayBranchStage<T, E> {
    Uninit,
    Waiting(NodeBox<T, E>),
    Done(T),
}

/// How far `Promise::all` has got: collecting results, or cancelled by the first error.
#[verifier::reject_recursive_types(T)]
#[verifier::reject_recursive_types(E)]
pub enum ArrayJoinStage<T, E> {
    Uninit,
    Active(Vec<ArrayBranchStage<T, E>>),
    Cancelled(E),
}

#[verifier::reject_recursive_types(T)]
#[verifier::reject_recursive_types(E)]
pub struct ArrayJoinState<T, E> {
    pub count_left: usize,
    pub on_ready_event: OnReadyEvent,
    pub stage: ArrayJoinStage<T, E>,
}

/// The number of branches in `branches` that have no value yet.
pub open spec fn unfinished<T, E>(branches: Seq<ArrayBranchStage<T, E>>) -> nat
    decreases branches.len(),
{
    if branches.len() == 0 {
        0
    } else {
        unfinished(branches.drop_last()) + if branches.last() is Done { 0nat } else { 1nat }
    }
}

impl<T, E> ArrayJoinState<T, E> {
    /// Records the result of branch `index`, which was waiting: its value, or the
    /// error that cancels the whole join. Arms whoever waits once the last value is
    /// in or on the error.
    pub fn settle(&mut self, index: usize, result: Result<T, E>)
        requires
            old(self).stage matches ArrayJoinStage::Active(b) && index < b.len() && !(b[index as int] is Done),
            old(self).stage matches ArrayJoinStage::Active(b) && old(self).count_left == unfinished(b@),
        ensures
            match result {
                Ok(v) => {
                    &&& final(self).stage matches ArrayJoinStage::Active(b)
                        && old(self).stage matches ArrayJoinStage::Active(b0)
                        && b@ == b0@.update(index as int, ArrayBranchStage::Done(v))
                        && final(self).count_left == unfinished(b@)
                    &&& final(self).count_left == old(self).count_left - 1
                    &&& final(self).count_left == 0 && old(self).on_ready_event is Full ==> final(self).on_ready_event is Empty
                    &&& final(self).count_left == 0 ==> arm_result(old(self).on_ready_event, final(self).on_ready_event)
                    &&& final(self).count_left > 0 ==> final(self).on_ready_event == old(self).on_ready_event
                },
                Err(e) => {
                    &&& final(self).stage == ArrayJoinStage::<T, E>::Cancelled(e)
                    &&& old(self).on_ready_event is Full ==> final(self).on_ready_event is Empty
                    &&& arm_result(old(self).on_ready_event, final(self).on_ready_event)
                },
            },
    {
        let mut stage = ArrayJoinStage::Uninit;
        std::mem::swap(&mut self.stage, &mut stage);
        match stage {
            ArrayJoinStage::Active(mut branches) => {
                match result {
                    Ok(v) => {
                        let ghost b0 = branches@;
                        branches.set(index, ArrayBranchStage::Done(v));
                        proof {
                            lemma_unfinished_done(b0, index as int, ArrayBranchStage::Done(v));
                        }
                        self.count_left = self.count_left - 1;
                        if self.count_left == 0 {
                            self.on_ready_event.arm();
                        }
                        self.stage = ArrayJoinStage::Active(branches);
                    },
                    Err(e) => {
                        self.stage = ArrayJoinStage::Cancelled(e);
                        self.on_ready_event.arm();
                    },
                }
            },
            other => {
                self.stage = other;
            },
        }
    }
}

/// Finishing one unfinished branch lowers the count of unfinished branches by one.
pub proof fn lemma_unfinished_done<T, E>(b: Seq<ArrayBranchStage<T, E>>, i: int, d: ArrayBranchStage<T, E>)
    requires
        0 <= i < b.len(),
        !(b[i] is Done),
        d is Done,
    ensures
        unfinished(b.update(i, d)) + 1 == unfinished(b),
    decreases b.len(),
{
    let b2 = b.update(i, d);
    if i == b.len() - 1 {
        assert(b2.drop_last() =~= b.drop_last());
    } else {
        assert(b2.drop_last() =~= b.drop_last().update(i, d));
        lemma_unfinished_done(b.drop_last(), i, d);
    }
}

/// Replacing an unfinished branch by another unfinished one keeps the count.
pub proof fn lemma_unfinished_replace<T, E>(b: Seq<ArrayBranchStage<T, E>>, i: int, d: ArrayBranchStage<T, E>)
    requires
        0 <= i < b.len(),
        !(b[i] is Done),
        !(d is Done),
    ensures
        unfinished(b.update(i, d)) == unfinished(b),
    decreases b.len(),
{
    let b2 = b.update(i, d);
    if i == b.len() - 1 {
        assert(b2.drop_last() =~= b.drop_last());
    } else {
        assert(b2.drop_last() =~= b.drop_last().update(i, d));
        lemma_unfinished_replace(b.drop_last(), i, d);
    }
}

/// When no branch is finished, every branch counts.
pub proof fn lemma_unfinished_none_done<T, E>(b: Seq<ArrayBranchStage<T, E>>)
    requires
        forall|k: int| 0 <= k < b.len() ==> !(#[trigger] b[k] is Done),
    ensures
        unfinished(b) == b.len(),
    decreases b.len(),
{
    if b.len() > 0 {
        assert forall|k: int| 0 <= k < b.drop_last().len() implies !(#[trigger] b.drop_last()[k] is Done) by {
            assert(b.drop_last()[k] == b[k]);
        }
        lemma_unfinished_none_done(b.drop_last());
        assert(!(b[b.len() - 1] is Done));
    }
}

/// The event of one branch of `Promise::all`.
#[verifier::reject_recursive_types(T)]
#[verifier::reject_recursive_types(E)]
struct ArrayJoinBranch<T, E> {
    index: usize,
    state: Rc<JoinCell<T, E>>,
}

/// Branch `b` may only lead to results among `part`.
pub open spec fn branch_bounds<T, E>(b: ArrayBranchStage<T, E>, part: Set<Result<T, E>>) -> bool {
    match b {
        ArrayBranchStage::Uninit => true,
        ArrayBranchStage::Waiting(p) => p.outcomes().subset_of(part),
        ArrayBranchStage::Done(v) => part.contains(Ok(v)),
    }
}

/// The state of a join over promises that may resolve to `parts` holds only what
/// they may produce.
pub open spec fn join_bounds<T, E>(parts: Seq<Set<Result<T, E>>>) -> spec_fn(ArrayJoinState<T, E>) -> bool {
    |s: ArrayJoinState<T, E>| match s.stage {
        ArrayJoinStage::Uninit => true,
        ArrayJoinStage::Active(b) => {
            &&& b@.len() == parts.len()
            &&& forall|i: int| 0 <= i < b@.len() ==> #[trigger] branch_bounds(b@[i], parts[i])
            &&& s.count_left == unfinished(b@)
        },
        ArrayJoinStage::Cancelled(e) => exists|i: int| 0 <= i < parts.len() && #[trigger] parts[i].contains(Err(e)),
    }
}

/// The shared state of a join, and what each of its promises may resolve to.
#[verifier::reject_recursive_types(T)]
#[verifier::reject_recursive_types(E)]
pub struct JoinCell<T, E> {
    cell: GuardedCell<ArrayJoinState<T, E>>,
    parts: Ghost<Seq<Set<Result<T, E>>>>,
}

impl<T, E> JoinCell<T, E> {
    #[verifier::type_invariant]
    spec fn bounded(self) -> bool {
        self.cell.inv() == join_bounds(self.parts@)
    }

    pub closed spec fn parts(&self) -> Seq<Set<Result<T, E>>> {
        self.parts@
    }

    fn new(s: ArrayJoinState<T, E>, parts: Ghost<Seq<Set<Result<T, E>>>>) -> (c: JoinCell<T, E>)
        requires
            join_bounds(parts@)(s),
        ensures
            c.parts() == parts@,
    {
        JoinCell { cell: GuardedCell::new(s, Ghost(join_bounds(parts@))), parts }
    }

    fn take(&self) -> (s: ArrayJoinState<T, E>)
        ensures
            join_bounds(self.parts())(s),
    {
        proof {
            use_type_invariant(self);
        }
        self.cell.replace(ArrayJoinState { count_left: 0, on_ready_event: OnReadyEvent::Empty, stage: ArrayJoinStage::Uninit })
    }

    fn put(&self, s: ArrayJoinState<T, E>)
        requires
            join_bounds(self.parts())(s),
    {
        proof {
            use_type_invariant(self);
        }
        let _ = self.cell.replace(s);
    }
}

/// What firing the event of branch `index` does to a join's state `s0`, giving
/// `s1`: the branch's promise, which was waiting, gives its result. A value
/// finishes the branch and leaves one fewer to wait for, arming whoever waits once
/// none is left; an error cancels the join and arms whoever waits; a promise that gives nothing, which is never one that shows its result,
/// leaves the branch empty. Any other state stays as it was.
pub open spec fn branch_fired<T, E>(s0: ArrayJoinState<T, E>, s1: ArrayJoinState<T, E>, index: int) -> bool {
    match s0.stage {
        ArrayJoinStage::Active(b0) => if 0 <= index < b0@.len() && b0@[index] is Waiting {
            let p = b0@[index]->Waiting_0;
            ||| exists|v: T| #[trigger] p.outcomes().contains(Ok(v)) && (s1.stage matches ArrayJoinStage::Active(b1)
                && b1@ == b0@.update(index, ArrayBranchStage::Done(v)) && s1.count_left == s0.count_left - 1
                && (s1.count_left == 0 && s0.on_ready_event is Full ==> s1.on_ready_event is Empty)
                && (s1.count_left == 0 ==> arm_result(s0.on_ready_event, s1.on_ready_event))
                && (s1.count_left > 0 ==> s1.on_ready_event == s0.on_ready_event))
            ||| exists|e: E| #[trigger] p.outcomes().contains(Err(e)) && s1.stage == ArrayJoinStage::<T, E>::Cancelled(e)
                && (s0.on_ready_event is Full ==> s1.on_ready_event is Empty)
                && arm_result(s0.on_ready_event, s1.on_ready_event)
            ||| !p.ready() && (s1.stage matches ArrayJoinStage::Active(b1)
                && b1@ == b0@.update(index, ArrayBranchStage::Uninit) && s1.count_left == s0.count_left)
        } else {
            s1.stage matches ArrayJoinStage::Active(b1) && b1@ == b0@ && s1.count_left == s0.count_left
        },
        _ => s1.stage == s0.stage && s1.count_left == s0.count_left,
    }
}

impl<T, E> ArrayJoinState<T, E> {
    /// Fires the event of branch `index`: see `branch_fired`.
    pub(crate) fn fire_branch(&mut self, index: usize, Ghost(parts): Ghost<Seq<Set<Result<T, E>>>>)
        requires
            join_bounds(parts)(*old(self)),
        ensures
            join_bounds(parts)(*final(self)),
            branch_fired(*old(self), *final(self), index as int),
    {
        let ghost s0 = *self;
        let mut stage = ArrayJoinStage::Uninit;
        std::mem::swap(&mut self.stage, &mut stage);
        match stage {
            ArrayJoinStage::Active(mut branches) => {
                if index < branches.len() {
                    proof {
                        assert(branch_bounds(branches@[index as int], parts[index as int]));
                    }
                    let ghost old_branch = branches@[index as int];
                    let ghost b_before = branches@;
                    let mut branch = ArrayBranchStage::Uninit;
                    branches.set_and_swap(index, &mut branch);
                    assert(branch == old_branch);
                    proof {
                        assert forall|i: int| 0 <= i < branches@.len() implies #[trigger] branch_bounds(branches@[i], parts[i]) by {}
                    }
                    match branch {
                        ArrayBranchStage::Waiting(p) => {
                            let ghost part = parts[index as int];
                            proof {
                                lemma_unfinished_replace(b_before, index as int, ArrayBranchStage::Uninit);
                                assert(branches@ =~= b_before.update(index as int, ArrayBranchStage::Uninit));
                            }
                            let ghost pg = p;
                            let result = p.get();
                            self.stage = ArrayJoinStage::Active(branches);
                            match result {
                                Some(r) => {
                                    let ghost rr = r;
                                    let ghost b0 = self.stage->Active_0@;
                                    self.settle(index, r);
                                    proof {
                                        match rr {
                                            Ok(v) => {
                                                assert(part.contains(Ok(v)));
                                                assert(pg.outcomes().contains(Ok(v)));
                                                let b = self.stage->Active_0;
                                                assert(b@ =~= b_before.update(index as int, ArrayBranchStage::Done(v)));
                                                assert forall|i: int| 0 <= i < b@.len() implies #[trigger] branch_bounds(b@[i], parts[i]) by {
                                                    if i != index {
                                                        assert(b@[i] == b0[i]);
                                                    }
                                                }
                                            },
                                            Err(e) => {
                                                assert(pg.outcomes().contains(Err(e)));
                                                assert(parts[index as int].contains(Err(e)));
                                                assert(exists|j: int| 0 <= j < parts.len() && #[trigger] parts[j].contains(Err(e)));
                                                assert(self.stage->Cancelled_0 == e);
                                            },
                                        }
                                        assert(join_bounds(parts)(*self));
                                    }
                                },
                                None => {
                                    assert(!pg.ready());
                                },
                            }
                            assert(join_bounds(parts)(*self));
                        },
                        other => {
                            branches.set(index, other);
                            proof {
                                assert forall|i: int| 0 <= i < branches@.len() implies #[trigger] branch_bounds(branches@[i], parts[i]) by {
                                    if i == index {
                                        assert(branches@[i] == old_branch);
                                    }
                                }
                                assert(branches@ =~= b_before);
                            }
                            self.stage = ArrayJoinStage::Active(branches);
                        },
                    }
                } else {
                    self.stage = ArrayJoinStage::Active(branches);
                }
            },
            other => {
                self.stage = other;
            },
        }
    }
}

impl<T, E> Event for ArrayJoinBranch<T, E> {
    fn fire(&mut self) {
        let ghost parts = self.state.parts();
        let mut state = self.state.take();
        state.fire_branch(self.index, Ghost(parts));
        self.state.put(state);
    }
}

/// A node that collects the results of several promises into a vector, or fails
/// with the first error.
#[verifier::reject_recursive_types(T)]
#[verifier::reject_recursive_types(E)]
pub struct ArrayJoin<T, E> {
    state: Rc<JoinCell<T, E>>,
    droppers: Vec<EventDropper>,
}

impl<T, E> ArrayJoin<T, E> {
    /// The number of branch events that the join keeps alive: one per promise.
    pub closed spec fn events(&self) -> nat {
        self.droppers@.len()
    }
}

impl<T: 'static, E: 'static> ArrayJoin<T, E> {
    pub fn new(event_loop: &EventLoop, promises: Vec<Promise<T, E>>) -> (j: ArrayJoin<T, E>)
        ensures
            j.outcomes() == crate::all_results(promises@.map_values(|q: Promise<T, E>| q.outcomes())),
            j.events() == promises@.len(),
    {
        let ghost parts = promises@.map_values(|q: Promise<T, E>| q.outcomes());
        let ghost n = promises.len() as int;
        let state = Rc::new(JoinCell::new(
            ArrayJoinState { count_left: 0, on_ready_event: OnReadyEvent::Empty, stage: ArrayJoinStage::Uninit },
            Ghost(parts),
        ));
        let mut promises = promises;
        // Take the promises from the back, then restore their order.
        let mut reversed: Vec<Promise<T, E>> = Vec::new();
        while promises.len() > 0
            invariant
                promises.len() + reversed.len() == n,
                parts.len() == n,
                forall|k: int| 0 <= k < promises.len() ==> #[trigger] promises@[k].outcomes() == parts[k],
                forall|k: int| 0 <= k < reversed.len() ==> #[trigger] reversed@[k].outcomes() == parts[n - 1 - k],
            decreases promises.len(),
        {
            let p = promises.pop().unwrap();
            reversed.push(p);
        }
        let mut branches: Vec<ArrayBranchStage<T, E>> = Vec::new();
        let mut droppers: Vec<EventDropper> = Vec::new();
        while reversed.len() > 0
            invariant
                branches.len() + reversed.len() == n,
                droppers.len() == branches.len(),
                parts.len() == n,
                state.parts() == parts,
                forall|k: int| 0 <= k < reversed.len() ==> #[trigger] reversed@[k].outcomes() == parts[n - 1 - k],
                forall|k: int| 0 <= k < branches.len() ==> #[trigger] branch_bounds(branches@[k], parts[k]),
                forall|k: int| 0 <= k < branches.len() ==> #[trigger] branches@[k] is Waiting,
            decreases reversed.len(),
        {
            proof {
                assert(reversed@[reversed.len() - 1].outcomes() == parts[n - 1 - (reversed.len() - 1)]);
            }
            let promise = reversed.pop().unwrap();
            let (mut node, _slot) = promise.into_parts();
            let (handle, dropper) = GuardedEventHandle::new(event_loop);
            node.on_ready(handle.clone());
            handle.set(Box::new(ArrayJoinBranch { index: branches.len(), state: state.clone() }));
            branches.push(ArrayBranchStage::Waiting(node));
            droppers.push(dropper);
        }
        let mut s = state.take();
        if branches.len() == 0 {
            s.on_ready_event.arm();
        }
        proof {
            lemma_unfinished_none_done(branches@);
        }
        s.count_left = branches.len();
        s.stage = ArrayJoinStage::Active(branches);
        state.put(s);
        let j = ArrayJoin { state, droppers };
        proof {
            assert(j.outcomes() =~= crate::all_results(parts));
        }
        j
    }
}

impl<T, E> PromiseNode<Vec<T>, E> for ArrayJoin<T, E> {
    closed spec fn outcomes(&self) -> Set<Result<Vec<T>, E>> {
        crate::all_results(self.state.parts())
    }

    closed spec fn ready(&self) -> bool {
        false
    }

    closed spec fn settled(&self) -> Option<Result<Vec<T>, E>> {
        None
    }

    closed spec fn fed_by(&self) -> Option<Rc<SharedHub<Vec<T>, E>>> {
        None
    }

    fn shows_ready(&self) -> (b: bool) {
        false
    }

    fn on_ready(&mut self, event: GuardedEventHandle) {
        let mut s = self.state.take();
        s.on_ready_event.init(event);
        self.state.put(s);
    }

    fn get(self: Box<Self>) -> (r: Option<Result<Vec<T>, E>>) {
        let ghost parts = self.state.parts();
        let s = self.state.take();
        match s.stage {
            ArrayJoinStage::Cancelled(e) => {
                proof {
                    let i = choose|i: int| 0 <= i < parts.len() && parts[i].contains(Err(e));
                    assert(0 <= i < parts.len() && parts[i].contains(Err(e)));
                    let r = Err::<Vec<T>, E>(e);
                    assert(r->Err_0 == e);
                    assert(exists|j: int| 0 <= j < parts.len() && #[trigger] parts[j].contains(Err(e)));
                    assert(crate::all_results(parts).contains(r));
                }
                Some(Err(e))
            },
            ArrayJoinStage::Active(branches) => {
                let ghost b0 = branches@;
                let ghost n = branches.len() as int;
                let mut branches = branches;
                let mut reversed: Vec<T> = Vec::new();
                while branches.len() > 0
                    invariant
                        b0.len() == n,
                        n == parts.len(),
                        forall|i: int| 0 <= i < n ==> #[trigger] branch_bounds(b0[i], parts[i]),
                        branches.len() + reversed.len() == n,
                        branches@ == b0.subrange(0, branches.len() as int),
                        forall|k: int| 0 <= k < reversed.len() ==>
                            #[trigger] b0[n - 1 - k] == ArrayBranchStage::<T, E>::Done(reversed@[k]),
                    decreases branches.len(),
                {
                    proof {
                        assert(b0[branches.len() - 1] == branches@[branches.len() - 1]);
                    }
                    match branches.pop().unwrap() {
                        ArrayBranchStage::Done(v) => {
                            reversed.push(v);
                        },
                        _ => {
                            return None;
                        },
                    }
                    proof {
                        assert(branches@ =~= b0.subrange(0, branches.len() as int));
                    }
                }
                let ghost r0 = reversed@;
                let mut result: Vec<T> = Vec::new();
                while reversed.len() > 0
                    invariant
                        r0.len() == n,
                        result.len() + reversed.len() == n,
                        reversed@ == r0.subrange(0, reversed.len() as int),
                        forall|j: int| 0 <= j < result.len() ==> #[trigger] result@[j] == r0[n - 1 - j],
                    decreases reversed.len(),
                {
                    let v = reversed.pop().unwrap();
                    result.push(v);
                    proof {
                        assert(reversed@ =~= r0.subrange(0, reversed.len() as int));
                    }
                }
                proof {
                    assert forall|i: int| 0 <= i < parts.len() implies #[trigger] parts[i].contains(Ok(result@[i])) by {
                        assert(result@[i] == r0[n - 1 - i]);
                        assert(b0[n - 1 - (n - 1 - i)] == ArrayBranchStage::<T, E>::Done(r0[n - 1 - i]));
                        assert(branch_bounds(b0[i], parts[i]));
                    }
                    assert(crate::all_results(parts).contains(Ok(result)));
                }
                Some(Ok(result))
            },
            ArrayJoinStage::Uninit => None,
        }
    }
}

/// Which side of an exclusive join an event belongs to.
#[derive(PartialEq, Eq, Copy, Clone, Structural)]
pub enum ExclusiveJoinSide {
    Left,
    Right,
}

#[verifier::reject_recursive_types(T)]
#[verifier::reject_recursive_types(E)]
pub struct ExclusiveJoinState<T, E> {
    pub on_ready_event: OnReadyEvent,
    pub left: Option<NodeBox<T, E>>,
    pub right: Option<NodeBox<T, E>>,
}

impl<T, E> ExclusiveJoinState<T, E> {
    /// Records that `side` finished first: drops the other side and arms whoever
    /// waits. Once one side has won, later calls change nothing.
    pub fn decide(&mut self, side: ExclusiveJoinSide)
        ensures
            (old(self).left is Some && old(self).right is Some) ==> {
                &&& side == ExclusiveJoinSide::Left ==> final(self).left == old(self).left && final(self).right is None
                &&& side == ExclusiveJoinSide::Right ==> final(self).right == old(self).right && final(self).left is None
                &&& old(self).on_ready_event is Full ==> final(self).on_ready_event is Empty
            },
            !(old(self).left is Some && old(self).right is Some) ==> {
                &&& final(self).left == old(self).left
                &&& final(self).right == old(self).right
            },
    {
        if self.left.is_some() && self.right.is_some() {
            match side {
                ExclusiveJoinSide::Left => {
                    self.right = None;
                },
                ExclusiveJoinSide::Right => {
                    self.left = None;
                },
            }
            self.on_ready_event.arm();
        }
    }
}

/// Each side of an exclusive join may only lead to what its promise may produce.
pub open spec fn side_bounds<T, E>(left: Set<Result<T, E>>, right: Set<Result<T, E>>) -> spec_fn(ExclusiveJoinState<T, E>) -> bool {
    |s: ExclusiveJoinState<T, E>| {
        &&& s.left matches Some(p) ==> p.outcomes().subset_of(left)
        &&& s.right matches Some(p) ==> p.outcomes().subset_of(right)
    }
}

/// The shared state of an exclusive join, and what its two promises may resolve to.
#[verifier::reject_recursive_types(T)]
#[verifier::reject_recursive_types(E)]
pub struct ExclusiveCell<T, E> {
    cell: GuardedCell<ExclusiveJoinState<T, E>>,
    left: Ghost<Set<Result<T, E>>>,
    right: Ghost<Set<Result<T, E>>>,
}

impl<T, E> ExclusiveCell<T, E> {
    #[verifier::type_invariant]
    spec fn bounded(self) -> bool {
        self.cell.inv() == side_bounds(self.left@, self.right@)
    }

    pub closed spec fn left(&self) -> Set<Result<T, E>> {
        self.left@
    }

    pub closed spec fn right(&self) -> Set<Result<T, E>> {
        self.right@
    }

    fn take(&self) -> (s: ExclusiveJoinState<T, E>)
        ensures
            side_bounds(self.left(), self.right())(s),
    {
        proof {
            use_type_invariant(self);
        }
        self.cell.replace(ExclusiveJoinState { on_ready_event: OnReadyEvent::Empty, left: None, right: None })
    }

    fn put(&self, s: ExclusiveJoinState<T, E>)
        requires
            side_bounds(self.left(), self.right())(s),
    {
        proof {
            use_type_invariant(self);
        }
        let _ = self.cell.replace(s);
    }
}

#[verifier::reject_recursive_types(T)]
#[verifier::reject_recursive_types(E)]
struct ExclusiveJoinBranch<T, E> {
    state: Rc<ExclusiveCell<T, E>>,
    side: ExclusiveJoinSide,
}

impl<T, E> Event for ExclusiveJoinBranch<T, E> {
    fn fire(&mut self) {
        let mut s = self.state.take();
        s.decide(self.side);
        self.state.put(s);
    }
}

/// A node that resolves as whichever of two promises resolves first, cancelling
/// the other.
#[verifier::reject_recursive_types(T)]
#[verifier::reject_recursive_types(E)]
pub struct ExclusiveJoin<T, E> {
    state: Rc<ExclusiveCell<T, E>>,
    left_dropper: EventDropper,
    right_dropper: EventDropper,
}

impl<T: 'static, E: 'static> ExclusiveJoin<T, E> {
    pub fn new(event_loop: &EventLoop, left: NodeBox<T, E>, right: NodeBox<T, E>) -> (j: ExclusiveJoin<T, E>)
        ensures
            j.outcomes() == left.outcomes() + right.outcomes(),
    {
        let ghost (lo, ro) = (left.outcomes(), right.outcomes());
        let mut left = left;
        let mut right = right;
        let state = Rc::new(ExclusiveCell {
            cell: GuardedCell::new(
                ExclusiveJoinState { on_ready_event: OnReadyEvent::Empty, left: None, right: None },
                Ghost(side_bounds(lo, ro)),
            ),
            left: Ghost(lo),
            right: Ghost(ro),
        });
        let (left_handle, left_dropper) = GuardedEventHandle::new(event_loop);
        left.on_ready(left_handle.clone());
        left_handle.set(Box::new(ExclusiveJoinBranch { state: state.clone(), side: ExclusiveJoinSide::Left }));
        let (right_handle, right_dropper) = GuardedEventHandle::new(event_loop);
        right.on_ready(right_handle.clone());
        right_handle.set(Box::new(ExclusiveJoinBranch { state: state.clone(), side: ExclusiveJoinSide::Right }));
        let mut s = state.take();
        s.left = Some(left);
        s.right = Some(right);
        state.put(s);
        ExclusiveJoin { state, left_dropper, right_dropper }
    }
}

impl<T, E> PromiseNode<T, E> for ExclusiveJoin<T, E> {
    closed spec fn outcomes(&self) -> Set<Result<T, E>> {
        self.state.left() + self.state.right()
    }

    closed spec fn ready(&self) -> bool {
        false
    }

    closed spec fn settled(&self) -> Option<Result<T, E>> {
        None
    }

    closed spec fn fed_by(&self) -> Option<Rc<SharedHub<T, E>>> {
        None
    }

    fn shows_ready(&self) -> (b: bool) {
        false
    }

    fn on_ready(&mut self, event: GuardedEventHandle) {
        let mut s = self.state.take();
        s.on_ready_event.init(event);
        self.state.put(s);
    }

    fn get(self: Box<Self>) -> (r: Option<Result<T, E>>) {
        let s = self.state.take();
        match (s.left, s.right) {
            (Some(p), None) => p.get(),
            (None, Some(p)) => p.get(),
            _ => None,
        }
    }
}

/// How far a forked promise has got.
#[verifier::reject_recursive_types(T)]
#[verifier::reject_recursive_types(E)]
pub enum ForkHubStage<T, E> {
    Uninitialized,
    Waiting(NodeBox<T, E>),
    Done(Result<T, E>),
}

#[verifier::reject_recursive_types(T)]
#[verifier::reject_recursive_types(E)]
pub struct ForkHubState<T, E> {
    pub branches: Vec<Rc<FreeCell<OnReadyEvent>>>,
    pub stage: ForkHubStage<T, E>,
}

/// The state of a fork may only lead to results among `results`.
pub open spec fn fork_bounds<T, E>(results: Set<Result<T, E>>) -> spec_fn(ForkHubState<T, E>) -> bool {
    |s: ForkHubState<T, E>| match s.stage {
        ForkHubStage::Uninitialized => true,
        ForkHubStage::Waiting(p) => p.outcomes().subset_of(results),
        ForkHubStage::Done(r) => results.contains(r),
    }
}

/// The shared state of a fork, and what the forked promise may resolve to.
#[verifier::reject_recursive_types(T)]
#[verifier::reject_recursive_types(E)]
pub struct ForkCell<T, E> {
    cell: GuardedCell<ForkHubState<T, E>>,
    results: Ghost<Set<Result<T, E>>>,
}

impl<T, E> ForkCell<T, E> {
    #[verifier::type_invariant]
    spec fn bounded(self) -> bool {
        self.cell.inv() == fork_bounds(self.results@)
    }

    pub closed spec fn results(&self) -> Set<Result<T, E>> {
        self.results@
    }

    fn take(&self) -> (s: ForkHubState<T, E>)
        ensures
            fork_bounds(self.results())(s),
    {
        proof {
            use_type_invariant(self);
        }
        self.cell.replace(ForkHubState { branches: Vec::new(), stage: ForkHubStage::Uninitialized })
    }

    fn put(&self, s: ForkHubState<T, E>)
        requires
            fork_bounds(self.results())(s),
    {
        proof {
            use_type_invariant(self);
        }
        let _ = self.cell.replace(s);
    }
}

/// A clone of the result `r`.
fn clone_result<T: Clone, E: Clone>(r: &Result<T, E>) -> (c: Result<T, E>)
    ensures
        match (*r, c) {
            (Ok(v), Ok(w)) => vstd::pervasive::strictly_cloned(v, w),
            (Err(e), Err(e1)) => vstd::pervasive::strictly_cloned(e, e1),
            _ => false,
        },
{
    match r {
        Ok(v) => Ok(v.clone()),
        Err(e) => Err(e.clone()),
    }
}

/// The shared part of a forked promise: the forked promise until it resolves,
/// then its result, and the branches waiting for it.
#[verifier::reject_recursive_types(T)]
#[verifier::reject_recursive_types(E)]
pub struct ForkHub<T, E> {
    state: Rc<ForkCell<T, E>>,
    dropper: EventDropper,
}

impl<T, E> ForkHub<T, E> {
    /// What the forked promise may resolve to.
    pub closed spec fn results(&self) -> Set<Result<T, E>> {
        self.state.results()
    }
}

impl<T: Clone + 'static, E: Clone + 'static> ForkHub<T, E> {
    pub fn new(event_loop: &EventLoop, inner: NodeBox<T, E>) -> (h: ForkHub<T, E>)
        ensures
            h.results() == inner.outcomes(),
    {
        let ghost results = inner.outcomes();
        let mut inner = inner;
        let (handle, dropper) = GuardedEventHandle::new(event_loop);
        inner.on_ready(handle.clone());
        let state = Rc::new(ForkCell {
            cell: GuardedCell::new(
                ForkHubState { branches: Vec::new(), stage: ForkHubStage::Waiting(inner) },
                Ghost(fork_bounds(results)),
            ),
            results: Ghost(results),
        });
        handle.set(Box::new(ForkEvent { state: state.clone() }));
        ForkHub { state, dropper }
    }

    /// A new promise for a clone of the forked result: resolved at once if the
    /// result is there.
    pub fn add_branch(hub: &Rc<ForkHub<T, E>>) -> (p: Promise<T, E>)
        ensures
            p.outcomes() == crate::cloned_results(hub.results()),
    {
        let mut s = hub.state.take();
        let on_ready_event = match &s.stage {
            ForkHubStage::Done(_) => Rc::new(FreeCell::new(OnReadyEvent::AlreadyReady)),
            _ => Rc::new(FreeCell::new(OnReadyEvent::Empty)),
        };
        let done = match &s.stage {
            ForkHubStage::Done(_) => true,
            _ => false,
        };
        if !done {
            s.branches.push(on_ready_event.clone());
        }
        hub.state.put(s);
        Promise { node: NodeBox { node: Box::new(ForkBranch { hub: hub.clone(), on_ready_event }) }, slot: None }
    }
}

/// The event of a forked promise: fires when the forked promise resolves.
#[verifier::reject_recursive_types(T)]
#[verifier::reject_recursive_types(E)]
pub struct ForkEvent<T, E> {
    state: Rc<ForkCell<T, E>>,
}

impl<T, E> Event for ForkEvent<T, E> {
    fn fire(&mut self) {
        let mut s = self.state.take();
        let mut stage = ForkHubStage::Uninitialized;
        std::mem::swap(&mut s.stage, &mut stage);
        match stage {
            ForkHubStage::Waiting(inner) => {
                match inner.get() {
                    Some(result) => {
                        let mut i: usize = 0;
                        while i < s.branches.len()
                            decreases s.branches.len() - i,
                        {
                            let mut branch_event = s.branches[i].replace(OnReadyEvent::Empty);
                            branch_event.arm();
                            let _ = s.branches[i].replace(branch_event);
                            i = i + 1;
                        }
                        s.stage = ForkHubStage::Done(result);
                    },
                    None => {},
                }
            },
            other => {
                s.stage = other;
            },
        }
        self.state.put(s);
    }
}

/// One branch of a forked promise.
#[verifier::reject_recursive_types(T)]
#[verifier::reject_recursive_types(E)]
pub struct ForkBranch<T, E> {
    hub: Rc<ForkHub<T, E>>,
    on_ready_event: Rc<FreeCell<OnReadyEvent>>,
}

impl<T: Clone, E: Clone> PromiseNode<T, E> for ForkBranch<T, E> {
    closed spec fn outcomes(&self) -> Set<Result<T, E>> {
        crate::cloned_results(self.hub.results())
    }

    closed spec fn ready(&self) -> bool {
        false
    }

    closed spec fn settled(&self) -> Option<Result<T, E>> {
        None
    }

    closed spec fn fed_by(&self) -> Option<Rc<SharedHub<T, E>>> {
        None
    }

    fn shows_ready(&self) -> (b: bool) {
        false
    }

    fn on_ready(&mut self, event: GuardedEventHandle) {
        let mut e = self.on_ready_event.replace(OnReadyEvent::Empty);
        e.init(event);
        let _ = self.on_ready_event.replace(e);
    }

    fn get(self: Box<Self>) -> (r: Option<Result<T, E>>) {
        let s = self.hub.state.take();
        let result = match &s.stage {
            ForkHubStage::Done(r) => {
                let c = clone_result(r);
                proof {
                    assert(crate::cloned_results(self.hub.results()).contains(c));
                }
                Some(c)
            },
            _ => None,
        };
        self.hub.state.put(s);
        result
    }
}

} // verus!
