//! Event-loop concurrency built on promises.
//!
//! A [`Promise<T, E>`](struct.Promise.html) is a computation that eventually
//! resolves to a value of type `T` or to an error of type `E`. Promises are chained
//! with `and_then()` and `map()`, combined with `all()`, `exclusive_join()` and
//! `fork()`, and run by an [`EventLoop`](struct.EventLoop.html) on one thread:
//! `EventLoop::top_level()` creates the loop, and `Promise::wait()` turns it until a
//! promise resolves.
//!
//! The loop is passed explicitly: the functions that schedule work take the
//! `EventLoop` they schedule it on, which `WaitScope::event_loop()` gives.

use vstd::prelude::*;
use crate::cells::FreeCell;
use std::rc::Rc;
use crate::private::event_queue::EventQueue;
use crate::private::promise_node;
use crate::private::promise_node::{accepts_all, ResultFn};
use vstd::std_specs::convert::IntoSpec;
use crate::private::{NodeBox, BoolEvent, Event, EventHandle, GuardedEventHandle, OwnerToken, PromiseAndFulfillerWrapper,
                     PromiseNode, SharedHub, Watch};

mod cells;
pub mod io;
pub mod laws;
pub mod handle_table;
pub mod private;

verus! {

/// A computation that might eventually resolve to a value of type `T` or to an
/// error of type `E`. Dropping the promise cancels the computation.
#[verifier::reject_recursive_types(T)]
#[verifier::reject_recursive_types(E)]
pub struct Promise<T, E> {
    node: NodeBox<T, E>,
    /// For the promise of a chain, where a chain that comes to hold it makes itself
    /// known, so that the chain can hand its final result up.
    slot: Option<Rc<promise_node::ChainSlot<T, E>>>,
}

impl<T, E> Promise<T, E> {
    /// The results that this promise may resolve to.
    pub closed spec fn outcomes(&self) -> Set<Result<T, E>> {
        self.node.outcomes()
    }

    /// The result, where the promise shows exactly what it is: for a promise made
    /// by `ok` or `err`, that result; otherwise `None`.
    pub closed spec fn settled(&self) -> Option<Result<T, E>> {
        self.node.settled()
    }

    /// Whether the promise shows that its result is there, as a promise made by
    /// `ok` or `err`, or a `map` of one, does.
    pub closed spec fn ready(&self) -> bool {
        self.node.ready()
    }

    /// The hub through which a fulfiller resolves this promise, for a promise made
    /// by `and_fulfiller`.
    pub closed spec fn fed_by(&self) -> Option<Rc<SharedHub<T, E>>> {
        self.node.fed_by()
    }

    /// Where the promise is the promise of a chain, the chain's slot speaks of the
    /// same results as the promise.
    #[verifier::type_invariant]
    spec fn slot_agrees(self) -> bool {
        self.slot matches Some(s) ==> s.results() == self.node.outcomes()
    }

    /// The node, and the slot of the chain whose promise this is, if it is one.
    pub(crate) fn into_parts(self) -> (r: (NodeBox<T, E>, Option<Rc<promise_node::ChainSlot<T, E>>>))
        ensures
            r.0.outcomes() == self.outcomes(),
            r.0.settled() == self.settled(),
            r.0.ready() == self.ready(),
            r.1 matches Some(s) ==> s.results() == self.outcomes(),
    {
        proof {
            use_type_invariant(&self);
        }
        let Promise { node, slot } = self;
        (node, slot)
    }
}

/// The results of `map(f)` on a promise that may resolve to `results`: `f` of each
/// value, and each error unchanged.
pub open spec fn map_results<T, E, R, F: FnOnce(T) -> Result<R, E>>(results: Set<Result<T, E>>, f: F) -> Set<Result<R, E>> {
    Set::new(|r: Result<R, E>| exists|x: Result<T, E>| #[trigger] results.contains(x) && match x {
        Ok(v) => call_ensures(f, (v,), r),
        Err(e) => r == Err::<R, E>(e),
    })
}

/// The results of `map_else(f)`: `f` of each result.
pub open spec fn map_else_results<T, E, T1, E1, F: FnOnce(Result<T, E>) -> Result<T1, E1>>(results: Set<Result<T, E>>, f: F) -> Set<Result<T1, E1>> {
    Set::new(|r: Result<T1, E1>| exists|x: Result<T, E>| #[trigger] results.contains(x) && call_ensures(f, (x,), r))
}

/// The results of `map_err(f)`: each value unchanged, and `f` of each error.
pub open spec fn map_err_results<T, E, E1, F: FnOnce(E) -> E1>(results: Set<Result<T, E>>, f: F) -> Set<Result<T, E1>> {
    Set::new(|r: Result<T, E1>| exists|x: Result<T, E>| #[trigger] results.contains(x) && match (x, r) {
        (Ok(v), Ok(w)) => v == w,
        (Err(e), Err(e1)) => call_ensures(f, (e,), e1),
        _ => false,
    })
}

/// The results of `lift()`: each value unchanged, and each error converted by
/// `Into` (whose result is known where `Into` follows its specification).
pub open spec fn lift_results<T, E: Into<E1>, E1>(results: Set<Result<T, E>>) -> Set<Result<T, E1>> {
    Set::new(|r: Result<T, E1>| exists|x: Result<T, E>| #[trigger] results.contains(x) && match (x, r) {
        (Ok(v), Ok(w)) => v == w,
        (Err(e), Err(e1)) => <E as IntoSpec<E1>>::obeys_into_spec() ==> e1 == e.into_spec(),
        _ => false,
    })
}

/// The results of `and_then(f)`: what the promise that `f` returns for a value
/// may resolve to, and each error unchanged.
pub open spec fn then_results<T, E, T1, F: FnOnce(T) -> Promise<T1, E>>(results: Set<Result<T, E>>, f: F) -> Set<Result<T1, E>> {
    Set::new(|r: Result<T1, E>| exists|x: Result<T, E>| #[trigger] results.contains(x) && match x {
        Ok(v) => exists|p: Promise<T1, E>| call_ensures(f, (v,), p) && #[trigger] p.outcomes().contains(r),
        Err(e) => r == Err::<T1, E>(e),
    })
}

/// The results of `then_else(f)`: what the promise that `f` returns for a result
/// may resolve to.
pub open spec fn then_else_results<T, E, T1, E1, F: FnOnce(Result<T, E>) -> Promise<T1, E1>>(results: Set<Result<T, E>>, f: F) -> Set<Result<T1, E1>> {
    Set::new(|r: Result<T1, E1>| exists|x: Result<T, E>, p: Promise<T1, E1>|
        #[trigger] results.contains(x) && call_ensures(f, (x,), p) && #[trigger] p.outcomes().contains(r))
}

/// The results of `all()` on promises that may resolve to `parts`: the vector of one
/// value of each promise, in order, or the error of any of them.
pub open spec fn all_results<T, E>(parts: Seq<Set<Result<T, E>>>) -> Set<Result<Vec<T>, E>> {
    Set::new(|r: Result<Vec<T>, E>| match r {
        Ok(vs) => vs@.len() == parts.len() && forall|i: int| 0 <= i < parts.len() ==> #[trigger] parts[i].contains(Ok(vs@[i])),
        Err(e) => exists|i: int| 0 <= i < parts.len() && #[trigger] parts[i].contains(Err(e)),
    })
}

/// The results of a branch of a forked promise that may resolve to `results`: a
/// clone of one of them.
pub open spec fn cloned_results<T: Clone, E: Clone>(results: Set<Result<T, E>>) -> Set<Result<T, E>> {
    Set::new(|r: Result<T, E>| exists|x: Result<T, E>| #[trigger] results.contains(x) && match (x, r) {
        (Ok(v), Ok(w)) => vstd::pervasive::strictly_cloned(v, w),
        (Err(e), Err(e1)) => vstd::pervasive::strictly_cloned(e, e1),
        _ => false,
    })
}

impl<T: 'static, E: 'static> Promise<T, E> {
    /// Creates a new promise that has already been fulfilled with the given value.
    pub fn ok(value: T) -> (p: Promise<T, E>)
        ensures
            p.outcomes() == Set::<Result<T, E>>::empty().insert(Ok(value)),
            p.settled() == Some(Ok::<T, E>(value)),
    {
        Promise { node: NodeBox { node: Box::new(promise_node::Immediate::new(Ok(value))) }, slot: None }
    }

    /// Creates a new promise that has already been rejected with the given error.
    pub fn err(error: E) -> (p: Promise<T, E>)
        ensures
            p.outcomes() == Set::<Result<T, E>>::empty().insert(Err(error)),
            p.settled() == Some(Err::<T, E>(error)),
    {
        Promise { node: NodeBox { node: Box::new(promise_node::Immediate::new(Err(error))) }, slot: None }
    }

    /// Creates a new promise that never resolves.
    pub fn never_done() -> (p: Promise<T, E>)
        ensures
            p.outcomes() == Set::<Result<T, E>>::empty(),
    {
        Promise { node: NodeBox { node: Box::new(promise_node::NeverDone::new()) }, slot: None }
    }

    /// Creates a new promise/fulfiller pair. The fulfiller may resolve the promise
    /// to any result; if it is dropped first, the promise is rejected with
    /// `E::fulfiller_dropped()`.
    pub fn and_fulfiller() -> (r: (Promise<T, E>, PromiseFulfiller<T, E>))
        where E: FulfillerDropped
        ensures
            r.0.outcomes() == Set::<Result<T, E>>::full(),
            r.0.fed_by() == Some(r.1.hub_of()),
    {
        let (hub, token) = SharedHub::new();
        let promise = Promise { node: NodeBox { node: Box::new(PromiseAndFulfillerWrapper::new(crate::cells::share(&hub))) }, slot: None };
        (promise, PromiseFulfiller { hub, token })
    }

    /// Chains further computation to be executed once the promise resolves: when it
    /// is fulfilled or rejected, `func` is invoked on its result, at the earliest
    /// during the next turn of `event_loop`, and the returned promise then resolves
    /// as the promise that `func` returned. If the returned promise is dropped
    /// before `func` runs, `func` never runs.
    pub fn then_else<F, T1: 'static, E1: 'static>(self, event_loop: &EventLoop, func: F) -> (p: Promise<T1, E1>)
        where F: FnOnce(Result<T, E>) -> Promise<T1, E1> + 'static
        requires
            accepts_all(func),
        ensures
            p.outcomes() == then_else_results(self.outcomes(), func),
    {
        let ghost results = self.outcomes();
        let step = promise_node::ThenElse { f: func };
        let intermediate = NodeBox { node: Box::new(promise_node::Transform::new(self.node, step)) };
        proof {
            let mid = intermediate.outcomes();
            assert(mid == promise_node::transformed(results, step));
            assert forall|r: Result<T1, E1>| promise_node::flattened(mid).contains(r) implies
                then_else_results(results, func).contains(r) by {
                let x = choose|x: Result<Promise<T1, E1>, E1>| mid.contains(x) && match x {
                    Ok(q) => q.outcomes().contains(r),
                    Err(e) => r == Err::<T1, E1>(e),
                };
                let a = choose|a: Result<T, E>| results.contains(a) && step.maps(a, x);
                assert(results.contains(a));
            }
            assert forall|r: Result<T1, E1>| then_else_results(results, func).contains(r) implies
                promise_node::flattened(mid).contains(r) by {
                let (a, q) = choose|a: Result<T, E>, q: Promise<T1, E1>|
                    results.contains(a) && call_ensures(func, (a,), q) && q.outcomes().contains(r);
                assert(step.maps(a, Ok(q)));
                assert(mid.contains(Ok(q)));
            }
            assert(promise_node::flattened(mid) =~= then_else_results(results, func));
        }
        let (chain, slot) = promise_node::Chain::new(event_loop, intermediate);
        Promise { node: NodeBox { node: Box::new(chain) }, slot: Some(slot) }
    }

    /// Calls `then_else()` with a default error handler that simply propagates all
    /// errors.
    pub fn and_then<F, T1: 'static>(self, event_loop: &EventLoop, func: F) -> (p: Promise<T1, E>)
        where F: FnOnce(T) -> Promise<T1, E> + 'static
        requires
            accepts_all(func),
        ensures
            p.outcomes() == then_results(self.outcomes(), func),
    {
        let ghost results = self.outcomes();
        let step = promise_node::ThenOk { f: func };
        let intermediate = NodeBox { node: Box::new(promise_node::Transform::new(self.node, step)) };
        proof {
            let mid = intermediate.outcomes();
            assert(mid == promise_node::transformed(results, step));
            assert forall|r: Result<T1, E>| promise_node::flattened(mid).contains(r) implies
                then_results(results, func).contains(r) by {
                let x = choose|x: Result<Promise<T1, E>, E>| mid.contains(x) && match x {
                    Ok(q) => q.outcomes().contains(r),
                    Err(e) => r == Err::<T1, E>(e),
                };
                let a = choose|a: Result<T, E>| results.contains(a) && step.maps(a, x);
                assert(results.contains(a));
            }
            assert forall|r: Result<T1, E>| then_results(results, func).contains(r) implies
                promise_node::flattened(mid).contains(r) by {
                let a = choose|a: Result<T, E>| results.contains(a) && match a {
                    Ok(v) => exists|q: Promise<T1, E>| call_ensures(func, (v,), q) && q.outcomes().contains(r),
                    Err(e) => r == Err::<T1, E>(e),
                };
                match a {
                    Ok(v) => {
                        let q = choose|q: Promise<T1, E>| call_ensures(func, (v,), q) && q.outcomes().contains(r);
                        assert(step.maps(a, Ok(q)));
                        assert(mid.contains(Ok(q)));
                    },
                    Err(e) => {
                        assert(step.maps(a, Err(e)));
                        assert(mid.contains(Err(e)));
                    },
                }
            }
            assert(promise_node::flattened(mid) =~= then_results(results, func));
        }
        let (chain, slot) = promise_node::Chain::new(event_loop, intermediate);
        Promise { node: NodeBox { node: Box::new(chain) }, slot: Some(slot) }
    }

    /// Like `then_else()` but for a `func` that returns a direct value rather than a
    /// promise. `func` runs only when the result is asked for, so that a chain of
    /// `map()`s runs all at once; `eagerly_evaluate()` forces it to run.
    pub fn map_else<F, T1: 'static, E1: 'static>(self, func: F) -> (p: Promise<T1, E1>)
        where F: FnOnce(Result<T, E>) -> Result<T1, E1> + 'static
        requires
            accepts_all(func),
        ensures
            p.outcomes() == map_else_results(self.outcomes(), func),
            p.ready() == self.ready(),
    {
        let ghost results = self.outcomes();
        let p = Promise { node: NodeBox { node: Box::new(promise_node::Transform::new(self.node, promise_node::Direct { f: func })) }, slot: None };
        assert(p.outcomes() =~= map_else_results(results, func));
        p
    }

    /// Calls `map_else()` with a default error handler that simply propagates all
    /// errors.
    pub fn map<F, R: 'static>(self, func: F) -> (p: Promise<R, E>)
        where F: FnOnce(T) -> Result<R, E> + 'static
        requires
            accepts_all(func),
        ensures
            p.outcomes() == map_results(self.outcomes(), func),
            p.ready() == self.ready(),
    {
        let ghost results = self.outcomes();
        let p = Promise { node: NodeBox { node: Box::new(promise_node::Transform::new(self.node, promise_node::OnOk { f: func })) }, slot: None };
        assert(p.outcomes() =~= map_results(results, func));
        p
    }

    /// Transforms the error branch of the promise.
    pub fn map_err<E1: 'static, F>(self, func: F) -> (p: Promise<T, E1>)
        where F: FnOnce(E) -> E1 + 'static
        requires
            accepts_all(func),
        ensures
            p.outcomes() == map_err_results(self.outcomes(), func),
            p.ready() == self.ready(),
    {
        let ghost results = self.outcomes();
        let p = Promise { node: NodeBox { node: Box::new(promise_node::Transform::new(self.node, promise_node::OnErr { f: func })) }, slot: None };
        assert(p.outcomes() =~= map_err_results(results, func));
        p
    }

    /// Maps errors into a more general type.
    pub fn lift<E1: 'static>(self) -> (p: Promise<T, E1>)
        where E: Into<E1>
        ensures
            p.outcomes() == lift_results::<T, E, E1>(self.outcomes()),
            p.ready() == self.ready(),
    {
        let ghost results = self.outcomes();
        let p = Promise { node: NodeBox { node: Box::new(promise_node::Transform::new(self.node, promise_node::IntoErr)) }, slot: None };
        assert(p.outcomes() =~= lift_results::<T, E, E1>(results));
        p
    }

    /// Returns a new promise that resolves when either `self` or `other` resolves.
    /// The promise that doesn't resolve first is cancelled.
    pub fn exclusive_join(self, event_loop: &EventLoop, other: Promise<T, E>) -> (p: Promise<T, E>)
        ensures
            p.outcomes() == self.outcomes() + other.outcomes(),
    {
        Promise { node: NodeBox { node: Box::new(promise_node::ExclusiveJoin::new(event_loop, self.node, other.node)) }, slot: None }
    }

    /// Transforms a collection of promises into a promise for a vector. If any of
    /// the promises fails, immediately cancels the remaining promises.
    pub fn all(event_loop: &EventLoop, promises: Vec<Promise<T, E>>) -> (p: Promise<Vec<T>, E>)
        ensures
            p.outcomes() == all_results(promises@.map_values(|q: Promise<T, E>| q.outcomes())),
    {
        Promise { node: NodeBox { node: Box::new(promise_node::ArrayJoin::new(event_loop, promises)) }, slot: None }
    }

    /// Forks the promise, so that multiple different clients can independently wait
    /// on the result.
    pub fn fork(self, event_loop: &EventLoop) -> (f: ForkedPromise<T, E>)
        where T: Clone, E: Clone
        ensures
            f.outcomes() == self.outcomes(),
    {
        ForkedPromise::new(event_loop, self)
    }

    /// Holds onto `value` until the promise resolves, then drops `value`.
    pub fn attach<U: 'static>(self, value: U) -> (p: Promise<T, E>)
        ensures
            p.outcomes() == self.outcomes(),
            p.ready() == self.ready(),
    {
        let ghost results = self.outcomes();
        let p = Promise { node: NodeBox { node: Box::new(promise_node::Transform::new(self.node, promise_node::Keep { value })) }, slot: None };
        assert(p.outcomes() =~= results);
        p
    }

    /// Forces eager evaluation of this promise. Use this if you are going to hold on
    /// to the promise for a while without consuming the result, but you want to make
    /// sure that the system actually processes it.
    pub fn eagerly_evaluate(self, event_loop: &EventLoop) -> (p: Promise<T, E>)
        ensures
            p.outcomes() == self.outcomes(),
    {
        let ghost results = self.outcomes();
        let step = promise_node::Reresolve;
        let intermediate = NodeBox { node: Box::new(promise_node::Transform::new(self.node, step)) };
        proof {
            let mid = intermediate.outcomes();
            assert(mid == promise_node::transformed(results, step));
            assert forall|r: Result<T, E>| promise_node::flattened(mid).contains(r) implies results.contains(r) by {
                let x = choose|x: Result<Promise<T, E>, E>| mid.contains(x) && match x {
                    Ok(q) => q.outcomes().contains(r),
                    Err(e) => r == Err::<T, E>(e),
                };
                let a = choose|a: Result<T, E>| results.contains(a) && step.maps(a, x);
            }
            assert forall|r: Result<T, E>| results.contains(r) implies promise_node::flattened(mid).contains(r) by {
                match r {
                    Ok(v) => {
                        let q = fulfilled_promise::<T, E>(v);
                        assert(step.maps(r, Ok(q)));
                        assert(mid.contains(Ok(q)));
                        assert(q.outcomes().contains(r));
                    },
                    Err(e) => {
                        assert(step.maps(r, Err(e)));
                        assert(mid.contains(Err(e)));
                    },
                }
            }
            assert(promise_node::flattened(mid) =~= results);
        }
        let (chain, slot) = promise_node::Chain::new(event_loop, intermediate);
        Promise { node: NodeBox { node: Box::new(chain) }, slot: Some(slot) }
    }

    /// Runs the event loop until the promise is fulfilled, returning its result.
    /// When the loop has nothing to run, waits on `event_source`; an error from it
    /// ends the wait, converted by `E::from`. If the promise never resolves, the
    /// wait gives up after `u64::MAX` turns with `E::fulfiller_dropped()`. A
    /// promise whose result is already there gives that result.
    pub fn wait<E1, P: EventPort<E1>>(self, wait_scope: &WaitScope, event_source: &mut P) -> (result: Result<T, E>)
        where E: From<E1> + FulfillerDropped
        ensures
            self.settled() matches Some(x) ==> result == x,
            self.ready() ==> self.outcomes().contains(result),
            self.ready() ==> *final(event_source) == *old(event_source),
            match result {
                Ok(v) => self.outcomes().contains(Ok(v)),
                Err(e) => self.outcomes().contains(Err(e))
                    || (exists|e1: E1| call_ensures(E::from, (e1,), e))
                    || call_ensures(E::fulfiller_dropped, (), e),
            },
    {
        let event_loop = wait_scope.event_loop.clone();
        let fired = Rc::new(FreeCell::new(false));
        let (handle, _dropper) = GuardedEventHandle::new(&event_loop);
        handle.set(Box::new(BoolEvent::new(fired.clone())));
        let (mut node, _slot) = self.into_parts();
        node.on_ready(handle);
        let ghost settled = node.settled();
        let mut fuel: u64 = u64::MAX;
        let mut done = false;
        while fuel > 0 && !done
            invariant
                node.settled() == settled,
                node.outcomes() == self.outcomes(),
                settled == self.settled(),
                node.ready() == self.ready(),
                self.ready() ==> *event_source == *old(event_source),
            decreases fuel,
        {
            fuel = fuel - 1;
            done = fired.replace(false);
            if done {
                break;
            }
            if !event_loop.turn() {
                if node.shows_ready() {
                    // The result is there: nothing outside needs to be waited for.
                    break;
                }
                match event_source.wait() {
                    Ok(()) => {},
                    Err(e) => {
                        return Err(E::from(e));
                    },
                }
            }
        }
        match node.get() {
            Some(r) => r,
            None => Err(E::fulfiller_dropped()),
        }
    }
}

/// A promise already fulfilled with `value`, as a value of the specification.
spec fn fulfilled_promise<T: 'static, E: 'static>(value: T) -> Promise<T, E> {
    Promise { node: NodeBox { node: Box::new(promise_node::Immediate { result: Ok(value) }) }, slot: None }
}

/// A scope in which asynchronous programming can occur. Corresponds to the top level
/// scope of some event loop. Can be used to wait for the result of a promise.
pub struct WaitScope {
    event_loop: EventLoop,
}

impl WaitScope {
    /// The loop that this scope runs.
    pub closed spec fn loop_of(&self) -> EventLoop {
        self.event_loop
    }

    /// The event loop of this scope.
    pub fn event_loop(&self) -> (l: EventLoop)
        ensures
            l == self.loop_of(),
    {
        self.event_loop.share()
    }
}

/// The result of `Promise::fork()`. Allows branches to be created. Dropping the
/// `ForkedPromise` along with any branches created through `add_branch()` will cancel
/// the computation.
#[verifier::reject_recursive_types(T)]
#[verifier::reject_recursive_types(E)]
pub struct ForkedPromise<T, E> {
    hub: Rc<promise_node::ForkHub<T, E>>,
}

impl<T, E> ForkedPromise<T, E> {
    /// The results that the forked promise may resolve to.
    pub closed spec fn outcomes(&self) -> Set<Result<T, E>> {
        self.hub.results()
    }
}

impl<T: Clone + 'static, E: Clone + 'static> ForkedPromise<T, E> {
    fn new(event_loop: &EventLoop, inner: Promise<T, E>) -> (f: ForkedPromise<T, E>)
        ensures
            f.outcomes() == inner.outcomes(),
    {
        ForkedPromise { hub: Rc::new(promise_node::ForkHub::new(event_loop, inner.node)) }
    }

    /// Creates a new promise that will resolve when the forked promise
    /// resolves, to a clone of its result.
    pub fn add_branch(&mut self) -> (p: Promise<T, E>)
        ensures
            final(self).outcomes() == old(self).outcomes(),
            p.outcomes() == cloned_results(old(self).outcomes()),
    {
        promise_node::ForkHub::add_branch(&self.hub)
    }
}

/// Interface between an `EventLoop` and events originating from outside of the
/// loop's thread. Needed in `Promise::wait()`.
pub trait EventPort<E> {
    /// Waits for an external event to arrive, blocking the thread if necessary.
    fn wait(&mut self) -> Result<(), E>;
}

/// An event port that never emits any events. On wait() it returns the error it was
/// constructed with.
pub struct ClosedEventPort<E: Clone>(pub E);

impl<E: Clone> EventPort<E> for ClosedEventPort<E> {
    fn wait(&mut self) -> (r: Result<(), E>)
        ensures
            *final(self) == *old(self),
            r matches Err(e) && vstd::pervasive::strictly_cloned(old(self).0, e),
    {
        Err(self.0.clone())
    }
}

/// A queue of events being executed in a loop on a single thread. Cloning gives
/// another handle to the same loop.
#[derive(Clone)]
pub struct EventLoop {
    /// The queue; taken out while an operation works on it.
    queue: Rc<FreeCell<Option<EventQueue>>>,
    watchers: Rc<FreeCell<Vec<Box<dyn Watch>>>>,
}

impl EventLoop {
    /// Another handle to the same loop: both share the queue and the watchers.
    pub fn share(&self) -> (l: EventLoop)
        ensures
            l == *self,
    {
        EventLoop { queue: crate::cells::share(&self.queue), watchers: crate::cells::share(&self.watchers) }
    }

    /// Creates an event loop, runs `main` in its top-level scope, and then shuts the
    /// loop down, dropping every event still in it.
    pub fn top_level<R, F>(main: F) -> (result: R)
        where F: FnOnce(&WaitScope) -> R
        requires
            forall|ws: &WaitScope| call_requires(main, (ws,)),
        ensures
            exists|ws: &WaitScope| call_ensures(main, (ws,), result),
    {
        let event_loop = EventLoop::new();
        let wait_scope = WaitScope { event_loop: event_loop.clone() };
        let result = main(&wait_scope);
        event_loop.shutdown();
        result
    }

    fn new() -> EventLoop {
        EventLoop { queue: Rc::new(FreeCell::new(Some(EventQueue::new()))), watchers: Rc::new(FreeCell::new(Vec::new())) }
    }

    fn take_queue(&self) -> EventQueue {
        match self.queue.replace(None) {
            Some(queue) => queue,
            None => EventQueue::new(),
        }
    }

    fn put_queue(&self, queue: EventQueue) {
        let _ = self.queue.replace(Some(queue));
    }

    /// Frees the events whose owners are gone, and then those whose owners went
    /// with them, until none is left.
    fn collect(queue: EventQueue) -> (r: EventQueue)
        ensures
            r.head() == queue.head(),
            r.firing() == queue.firing(),
            forall|x: usize| r.armed().contains(x) ==> queue.armed().contains(x),
            r.live() <= queue.live(),
    {
        let ghost q0 = queue;
        let mut queue = queue;
        loop
            invariant
                queue.head() == q0.head(),
                queue.firing() == q0.firing(),
                forall|x: usize| queue.armed().contains(x) ==> q0.armed().contains(x),
                queue.live() <= q0.live(),
            decreases queue.live(),
        {
            let before = queue.live_count();
            let (swept, _garbage) = queue.sweep();
            queue = swept;
            if queue.live_count() == before {
                break;
            }
        }
        queue
    }

    /// Allocates an event owned through `owner`, after reclaiming the events whose
    /// owners are gone.
    pub(crate) fn new_event(&self, owner: Rc<OwnerToken>) -> Option<(EventHandle, u64)> {
        let queue = Self::collect(self.take_queue());
        let (queue, result) = queue.allocate(owner);
        self.put_queue(queue);
        result
    }

    pub(crate) fn set_event(&self, h: EventHandle, serial: u64, event: Box<dyn Event>) {
        let queue = self.take_queue();
        let queue = queue.set_event(h, serial, event);
        self.put_queue(queue);
    }

    /// Arms the event, if its owner is still there.
    pub(crate) fn arm(&self, h: EventHandle, serial: u64, depth_first: bool) {
        let queue = self.take_queue();
        let queue = if queue.owner_alive(h, serial) {
            if depth_first {
                queue.arm_depth_first(h, serial)
            } else {
                queue.arm_breadth_first(h, serial)
            }
        } else {
            queue
        };
        self.put_queue(queue);
    }

    pub(crate) fn event_alive(&self, h: EventHandle, serial: u64) -> bool {
        let queue = self.take_queue();
        let alive = queue.owner_alive(h, serial);
        self.put_queue(queue);
        alive
    }

    pub(crate) fn add_watch(&self, watch: Box<dyn Watch>) {
        let mut watchers = self.watchers.replace(Vec::new());
        watchers.push(watch);
        let _ = self.watchers.replace(watchers);
    }

    /// Polls every watcher once, keeping those that still have work.
    fn poll_watchers(&self) {
        let mut pending = self.watchers.replace(Vec::new());
        let mut kept: Vec<Box<dyn Watch>> = Vec::new();
        while pending.len() > 0
            decreases pending.len(),
        {
            let mut watch = pending.pop().unwrap();
            if !watch.poll() {
                kept.push(watch);
            }
        }
        let mut added = self.watchers.replace(Vec::new());
        kept.append(&mut added);
        let _ = self.watchers.replace(kept);
    }

    /// Runs the event loop for a single step: fires the first live event in the
    /// queue. Returns false when there was none.
    fn turn(&self) -> bool {
        self.poll_watchers();
        let queue = Self::collect(self.take_queue());
        let (queue, started) = queue.begin_turn();
        self.put_queue(queue);
        match started {
            None => false,
            Some((_h, event)) => {
                match event {
                    Some(mut e) => e.fire(),
                    None => {},
                }
                let queue = self.take_queue();
                let queue = queue.end_turn();
                self.put_queue(queue);
                true
            },
        }
    }

    /// Drops every watcher and every event.
    fn shutdown(&self) {
        let _ = self.watchers.replace(Vec::new());
        let _ = self.queue.replace(Some(EventQueue::new()));
    }
}

/// Specifies an error to generate when a `PromiseFulfiller` is dropped.
pub trait FulfillerDropped: Sized {
    fn fulfiller_dropped() -> Self;
}

/// A handle that can be used to fulfill or reject a promise. If you think of a
/// promise as the receiving end of a oneshot channel, then this is the sending end.
///
/// When a `PromiseFulfiller<T,E>` is dropped without first receiving a `fulfill()`,
/// `reject()`, or `resolve()` call, its promise is rejected with the error value
/// `E::fulfiller_dropped()`.
#[verifier::reject_recursive_types(T)]
#[verifier::reject_recursive_types(E)]
pub struct PromiseFulfiller<T, E> {
    hub: Rc<SharedHub<T, E>>,
    token: Rc<OwnerToken>,
}

impl<T, E> PromiseFulfiller<T, E> {
    /// The hub through which this fulfiller resolves its promise.
    pub closed spec fn hub_of(&self) -> Rc<SharedHub<T, E>> {
        self.hub
    }
}

impl<T, E: FulfillerDropped> PromiseFulfiller<T, E> {
    pub fn fulfill(self, value: T) {
        self.hub.resolve(Ok(value));
    }

    pub fn reject(self, error: E) {
        self.hub.resolve(Err(error));
    }

    pub fn resolve(self, result: Result<T, E>) {
        self.hub.resolve(result);
    }
}

impl FulfillerDropped for () {
    fn fulfiller_dropped() -> () {
        ()
    }
}

impl FulfillerDropped for std::io::Error {
    fn fulfiller_dropped() -> std::io::Error {
        io::other_error("Promise fulfiller was dropped.")
    }
}

/// Holds a collection of `Promise<T, E>`s and ensures that each executes to
/// completion. Destroying a `TaskSet` cancels all of its unfinished promises.
#[verifier::reject_recursive_types(T)]
#[verifier::reject_recursive_types(E)]
pub struct TaskSet<T, E> {
    task_set_impl: private::TaskSetImpl<T, E>,
}

impl<T, E> TaskSet<T, E> {
    /// The number of added tasks whose events the set keeps alive: those not yet
    /// seen to have finished.
    pub closed spec fn kept(&self) -> nat {
        self.task_set_impl.kept()
    }

    /// The number of places for the tasks' events, taken or free.
    pub closed spec fn slot_count(&self) -> nat {
        self.task_set_impl.slot_count()
    }
}

impl<T: 'static, E: 'static> TaskSet<T, E> {
    pub fn new(event_loop: &EventLoop, reaper: Box<dyn TaskReaper<T, E>>) -> (s: TaskSet<T, E>)
        ensures
            s.kept() == 0,
            s.slot_count() == 0,
    {
        TaskSet { task_set_impl: private::TaskSetImpl::new(event_loop, reaper) }
    }

    /// Adds a task, after letting go of the tasks seen to have finished: the set
    /// then keeps the new task, and at most one more task than before.
    pub fn add(&mut self, promise: Promise<T, E>)
        ensures
            final(self).kept() <= old(self).kept() + 1,
            final(self).slot_count() <= old(self).slot_count() + 1,
            old(self).kept() < usize::MAX && old(self).slot_count() < usize::MAX ==> final(self).kept() >= 1,
    {
        self.task_set_impl.add(promise);
    }
}

/// Callbacks to be invoked when a task in a `TaskSet` finishes. You are required to
/// implement at least the failure case.
pub trait TaskReaper<T, E> {
    fn task_succeeded(&mut self, _value: T) {
    }

    fn task_failed(&mut self, error: E);
}

} // verus!
