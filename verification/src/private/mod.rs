//! The machinery under promises: events, the handles that arm them, and the
//! shared state between a promise and whoever resolves it.
//!
//! Nothing here runs code when it is dropped. Whoever owns an event, a promise's
//! fulfiller or a chain holds a token; the event loop checks, before each turn,
//! whether anything besides the observed side still holds it, and treats the
//! owner as gone otherwise.

use vstd::prelude::*;
use crate::cells::FreeCell;
use std::rc::Rc;
use crate::cells::strong_count;
use crate::handle_table::{Handle, HandleTable};
use crate::{EventLoop, FulfillerDropped, Promise, TaskReaper};

pub mod event_queue;
pub mod promise_node;

verus! {

/// Something the event loop runs once, when it reaches the front of the queue.
pub trait Event {
    fn fire(&mut self);
}

/// Something the event loop checks before each turn until it reports, by
/// returning `true`, that it has nothing more to watch.
pub trait Watch {
    fn poll(&mut self) -> bool;
}

/// A computation that eventually produces a `Result<T, E>`.
pub trait PromiseNode<T, E> {
    /// The results that this node may produce.
    spec fn outcomes(&self) -> Set<Result<T, E>>;

    /// Whether the node itself shows that its result is there, as a node built
    /// around a known value does. A node whose progress lives in state shared with
    /// events shows nothing of it, and is never `ready` in this sense.
    spec fn ready(&self) -> bool;

    /// The result, where the node itself shows exactly what it is, as a node built
    /// around a known result does.
    spec fn settled(&self) -> Option<Result<T, E>>;

    /// The hub through which a fulfiller resolves this node, for the promise side
    /// of a promise/fulfiller pair; `None` for every other node.
    spec fn fed_by(&self) -> Option<Rc<SharedHub<T, E>>>;

    /// Whether the node is `ready`.
    fn shows_ready(&self) -> (b: bool)
        ensures
            b == self.ready(),
            self.settled() is Some ==> b,
    ;

    /// Arms `event` once the result is ready.
    fn on_ready(&mut self, event: GuardedEventHandle)
        ensures
            final(self).outcomes() == old(self).outcomes(),
            final(self).ready() == old(self).ready(),
            final(self).settled() == old(self).settled(),
    ;

    /// The result, once ready; `None` before.
    fn get(self: Box<Self>) -> (r: Option<Result<T, E>>)
        ensures
            r matches Some(x) ==> self.outcomes().contains(x),
            self.ready() ==> r is Some,
            self.settled() matches Some(x) ==> r == Some(x),
    ;
}

/// The handle of an event in the event loop's table.
#[derive(PartialEq, Eq, Copy, Clone, Hash, Debug, Structural)]
pub struct EventHandle(pub Handle);

/// A token whose holders keep something alive; see the module documentation.
pub struct OwnerToken;

/// Whether someone besides the holder of `token` holds it too.
pub fn is_held_elsewhere(token: &Rc<OwnerToken>) -> bool {
    strong_count(token) > 1
}

/// One entry of the event loop's table: the event to fire, its neighbours in the
/// queue of armed events, and the token that tells whether its owner still exists.
pub struct EventNode {
    pub event: Option<Box<dyn Event>>,
    pub next: Option<EventHandle>,
    pub prev: Option<EventHandle>,
    pub serial: u64,
    pub owner: Rc<OwnerToken>,
}

/// A promise node, owned. Nodes move between the library's structures inside this
/// box, so that what is known of a node travels with it.
#[verifier::reject_recursive_types(T)]
#[verifier::reject_recursive_types(E)]
pub struct NodeBox<T, E> {
    pub node: Box<dyn PromiseNode<T, E>>,
}

impl<T, E> NodeBox<T, E> {
    /// The results that the node may produce.
    pub open spec fn outcomes(&self) -> Set<Result<T, E>> {
        self.node.outcomes()
    }

    /// Whether the node shows that its result is there.
    pub open spec fn ready(&self) -> bool {
        self.node.ready()
    }

    /// The result, where the node shows exactly what it is.
    pub open spec fn settled(&self) -> Option<Result<T, E>> {
        self.node.settled()
    }

    /// The hub through which a fulfiller resolves the node, if there is one.
    pub open spec fn fed_by(&self) -> Option<Rc<SharedHub<T, E>>> {
        self.node.fed_by()
    }

    /// Whether the node is `ready`.
    pub fn shows_ready(&self) -> (b: bool)
        ensures
            b == self.ready(),
            self.settled() is Some ==> b,
    {
        self.node.shows_ready()
    }

    /// Arms `event` once the result is ready.
    pub fn on_ready(&mut self, event: GuardedEventHandle)
        ensures
            final(self).outcomes() == old(self).outcomes(),
            final(self).ready() == old(self).ready(),
            final(self).settled() == old(self).settled(),
    {
        self.node.on_ready(event);
    }

    /// The result, once ready; `None` before. A node that shows its result is
    /// there gives it.
    pub fn get(self) -> (r: Option<Result<T, E>>)
        ensures
            r matches Some(x) ==> self.outcomes().contains(x),
            self.ready() ==> r is Some,
            self.settled() matches Some(x) ==> r == Some(x),
    {
        self.node.get()
    }
}

/// The event handle whose table index is `val`.
pub open spec fn eh(val: usize) -> EventHandle {
    EventHandle(Handle { val })
}

/// A handle for setting and arming one event. It stops having any effect once the
/// event's `EventDropper` is gone, or the event's node has been reused.
#[derive(Clone)]
pub struct GuardedEventHandle {
    event_loop: EventLoop,
    event_handle: EventHandle,
    serial: u64,
}

impl GuardedEventHandle {
    /// The loop in which the event lives.
    pub closed spec fn loop_of(&self) -> EventLoop {
        self.event_loop
    }

    /// Allocates a new event in `event_loop`; it lives while the returned dropper
    /// does.
    pub fn new(event_loop: &EventLoop) -> (r: (GuardedEventHandle, EventDropper))
        ensures
            r.0.loop_of() == *event_loop,
    {
        let token = Rc::new(OwnerToken);
        let (event_handle, serial) = match event_loop.new_event(token.clone()) {
            Some(p) => p,
            None => (EventHandle(Handle { val: usize::MAX }), 0),
        };
        (GuardedEventHandle { event_loop: event_loop.share(), event_handle, serial }, EventDropper { token })
    }

    pub fn set(&self, event: Box<dyn Event>) {
        self.event_loop.set_event(self.event_handle, self.serial, event);
    }

    pub fn arm_breadth_first(self) {
        self.event_loop.arm(self.event_handle, self.serial, false);
    }

    pub fn arm_depth_first(self) {
        self.event_loop.arm(self.event_handle, self.serial, true);
    }

    /// Whether the event still exists and its dropper is alive.
    pub fn is_live(&self) -> bool {
        self.event_loop.event_alive(self.event_handle, self.serial)
    }
}

/// Keeps an event alive; once it is dropped, the event never fires.
pub struct EventDropper {
    token: Rc<OwnerToken>,
}

/// An event that records that it fired.
pub struct BoolEvent {
    fired: Rc<FreeCell<bool>>,
}

impl BoolEvent {
    /// The cell in which the event records that it fired.
    pub closed spec fn flag(&self) -> Rc<FreeCell<bool>> {
        self.fired
    }

    pub fn new(fired: Rc<FreeCell<bool>>) -> (e: BoolEvent)
        ensures
            e.flag() == fired,
    {
        BoolEvent { fired }
    }
}

impl Event for BoolEvent {
    fn fire(&mut self) {
        let _ = self.fired.replace(true);
    }
}

/// What `OnReadyEvent::arm` makes of `e0`: a waiting event is armed and
/// forgotten, and with nobody waiting the result is remembered as there.
pub open spec fn arm_result(e0: OnReadyEvent, e1: OnReadyEvent) -> bool {
    &&& e0 is Empty ==> e1 is AlreadyReady
    &&& e0 is Full ==> e1 is Empty
    &&& e0 is AlreadyReady ==> e1 is AlreadyReady
}

/// What `OnReadyEvent::init` with `event` makes of `e0`: with the result already
/// there the event is armed at once and the result stays remembered; otherwise
/// the event is kept.
pub open spec fn init_result(e0: OnReadyEvent, event: GuardedEventHandle, e1: OnReadyEvent) -> bool {
    &&& e0 is AlreadyReady ==> e1 is AlreadyReady
    &&& !(e0 is AlreadyReady) ==> e1 == OnReadyEvent::Full(event)
}

/// A result that arrives while nobody waits is handed at once to whoever comes
/// to wait later: arming an `OnReadyEvent` with no waiter and then registering a
/// waiter leaves the result remembered, the waiter armed, and no waiter stored,
/// for any waiter.
pub proof fn law_result_before_waiter_reaches_it(e0: OnReadyEvent, e1: OnReadyEvent, event: GuardedEventHandle, e2: OnReadyEvent)
    requires
        e0 is Empty,
        arm_result(e0, e1),
        init_result(e1, event, e2),
    ensures
        e2 is AlreadyReady,
        !(e2 is Full),
{
}

/// A waiter registered before the result arrives is armed when it arrives, and is
/// not kept afterwards.
pub proof fn law_waiter_before_result_is_armed(e0: OnReadyEvent, event: GuardedEventHandle, e1: OnReadyEvent, e2: OnReadyEvent)
    requires
        e0 is Empty,
        init_result(e0, event, e1),
        arm_result(e1, e2),
    ensures
        e1 == OnReadyEvent::Full(event),
        e2 is Empty,
{
}

/// Who is waiting for a result: nobody yet, nobody but the result is already
/// there, or the event to arm.
pub enum OnReadyEvent {
    Empty,
    AlreadyReady,
    Full(GuardedEventHandle),
}

impl OnReadyEvent {
    pub fn is_already_ready(&self) -> (b: bool)
        ensures
            b == (*self is AlreadyReady),
    {
        match self {
            OnReadyEvent::AlreadyReady => true,
            _ => false,
        }
    }

    pub fn is_empty(&self) -> (b: bool)
        ensures
            b == (*self is Empty),
    {
        match self {
            OnReadyEvent::Empty => true,
            _ => false,
        }
    }

    /// Registers `new_event`: armed at once, breadth-first, if the result is already
    /// there; otherwise kept until `arm`.
    pub fn init(&mut self, new_event: GuardedEventHandle)
        ensures
            *old(self) is AlreadyReady ==> *final(self) is AlreadyReady,
            !(*old(self) is AlreadyReady) ==> *final(self) == OnReadyEvent::Full(new_event),
            init_result(*old(self), new_event, *final(self)),
    {
        if self.is_already_ready() {
            new_event.arm_breadth_first();
        } else {
            *self = OnReadyEvent::Full(new_event);
        }
    }

    /// Records that the result is there: arms the waiting event, depth-first, or
    /// remembers it for a later `init`. A second call changes nothing.
    pub fn arm(&mut self)
        ensures
            *old(self) is Empty ==> *final(self) is AlreadyReady,
            *old(self) is Full ==> *final(self) is Empty,
            *old(self) is AlreadyReady ==> *final(self) is AlreadyReady,
            arm_result(*old(self), *final(self)),
    {
        let mut old_self = OnReadyEvent::Empty;
        std::mem::swap(self, &mut old_self);
        match old_self {
            OnReadyEvent::Empty => {
                *self = OnReadyEvent::AlreadyReady;
            },
            OnReadyEvent::Full(event) => {
                event.arm_depth_first();
            },
            OnReadyEvent::AlreadyReady => {
                *self = OnReadyEvent::AlreadyReady;
            },
        }
    }
}


/// How setting a hub's result changes who waits for it: a waiting event is armed
/// and forgotten, and with nobody waiting yet the hub remembers that the result is
/// there. A hub whose result was already set keeps its waiter as it was.
pub open spec fn hub_armed<T, E>(h0: PromiseAndFulfillerHub<T, E>, h1: PromiseAndFulfillerHub<T, E>) -> bool {
    if h0.result is None {
        &&& h0.on_ready_event is Empty ==> h1.on_ready_event is AlreadyReady
        &&& h0.on_ready_event is Full ==> h1.on_ready_event is Empty
        &&& h0.on_ready_event is AlreadyReady ==> h1.on_ready_event is AlreadyReady
    } else {
        h1.on_ready_event == h0.on_ready_event
    }
}

/// What a promise made by `Promise::and_fulfiller` and its fulfiller share: the
/// result, once set, and who is waiting for it.
#[verifier::reject_recursive_types(T)]
#[verifier::reject_recursive_types(E)]
pub struct PromiseAndFulfillerHub<T, E> {
    pub result: Option<Result<T, E>>,
    pub on_ready_event: OnReadyEvent,
}

impl<T, E> PromiseAndFulfillerHub<T, E> {
    pub fn new() -> (hub: PromiseAndFulfillerHub<T, E>)
        ensures
            hub.result is None,
            hub.on_ready_event is Empty,
    {
        PromiseAndFulfillerHub { result: None, on_ready_event: OnReadyEvent::Empty }
    }

    /// Sets the result, unless one is set already, and arms whoever waits for it.
    pub fn resolve(&mut self, result: Result<T, E>)
        ensures
            old(self).result is None ==> final(self).result == Some(result),
            old(self).result is Some ==> final(self).result == old(self).result,
            hub_armed(*old(self), *final(self)),
    {
        if self.result.is_none() {
            self.result = Some(result);
            self.on_ready_event.arm();
        }
    }

    pub fn fulfill(&mut self, value: T)
        ensures
            old(self).result is None ==> final(self).result == Some(Ok::<T, E>(value)),
            old(self).result is Some ==> final(self).result == old(self).result,
            hub_armed(*old(self), *final(self)),
    {
        self.resolve(Ok(value));
    }

    pub fn reject(&mut self, error: E)
        ensures
            old(self).result is None ==> final(self).result == Some(Err::<T, E>(error)),
            old(self).result is Some ==> final(self).result == old(self).result,
            hub_armed(*old(self), *final(self)),
    {
        self.resolve(Err(error));
    }
}

/// The shared side of a promise/fulfiller pair: the hub, and the token that the
/// fulfiller holds while it exists.
#[verifier::reject_recursive_types(T)]
#[verifier::reject_recursive_types(E)]
pub struct SharedHub<T, E> {
    hub: FreeCell<PromiseAndFulfillerHub<T, E>>,
    fulfiller: Rc<OwnerToken>,
}

impl<T, E> SharedHub<T, E> {
    /// A new shared hub, and the token to give its fulfiller.
    pub fn new() -> (r: (Rc<SharedHub<T, E>>, Rc<OwnerToken>)) {
        let token = Rc::new(OwnerToken);
        let shared = SharedHub { hub: FreeCell::new(PromiseAndFulfillerHub::new()), fulfiller: token.clone() };
        (Rc::new(shared), token)
    }

    fn take(&self) -> PromiseAndFulfillerHub<T, E> {
        self.hub.replace(PromiseAndFulfillerHub::new())
    }

    fn put(&self, hub: PromiseAndFulfillerHub<T, E>) {
        let _ = self.hub.replace(hub);
    }

    /// Sets the result unless one is set already.
    pub fn resolve(&self, result: Result<T, E>) {
        let mut hub = self.take();
        hub.resolve(result);
        self.put(hub);
    }

    fn fulfiller_alive(&self) -> bool {
        is_held_elsewhere(&self.fulfiller)
    }
}

/// The promise side of a promise/fulfiller pair.
#[verifier::reject_recursive_types(T)]
#[verifier::reject_recursive_types(E)]
pub struct PromiseAndFulfillerWrapper<T, E> {
    hub: Rc<SharedHub<T, E>>,
}

impl<T, E> PromiseAndFulfillerWrapper<T, E> {
    /// The hub that the promise shares with its fulfiller.
    pub closed spec fn shared(&self) -> Rc<SharedHub<T, E>> {
        self.hub
    }
}

impl<T: 'static, E: FulfillerDropped + 'static> PromiseAndFulfillerWrapper<T, E> {
    pub fn new(hub: Rc<SharedHub<T, E>>) -> (w: PromiseAndFulfillerWrapper<T, E>)
        ensures
            w.shared() == hub,
            w.fed_by() == Some(hub),
    {
        PromiseAndFulfillerWrapper { hub }
    }
}

impl<T: 'static, E: FulfillerDropped + 'static> PromiseNode<T, E> for PromiseAndFulfillerWrapper<T, E> {
    open spec fn outcomes(&self) -> Set<Result<T, E>> {
        Set::full()
    }

    open spec fn ready(&self) -> bool {
        false
    }

    open spec fn settled(&self) -> Option<Result<T, E>> {
        None
    }

    closed spec fn fed_by(&self) -> Option<Rc<SharedHub<T, E>>> {
        Some(self.hub)
    }

    fn shows_ready(&self) -> (b: bool) {
        false
    }

    fn on_ready(&mut self, event: GuardedEventHandle) {
        let event_loop = event.event_loop.clone();
        let mut hub = self.hub.take();
        if hub.result.is_none() && !self.hub.fulfiller_alive() {
            hub.resolve(Err(E::fulfiller_dropped()));
        }
        hub.on_ready_event.init(event);
        let pending = hub.result.is_none();
        self.hub.put(hub);
        if pending {
            event_loop.add_watch(Box::new(FulfillerWatch { hub: self.hub.clone() }));
        }
    }

    fn get(self: Box<Self>) -> Option<Result<T, E>> {
        let mut hub = self.hub.take();
        let result = hub.result.take();
        self.hub.put(hub);
        result
    }
}

/// Rejects a pending promise with `E::fulfiller_dropped()` once its fulfiller is
/// gone without having resolved it.
#[verifier::reject_recursive_types(T)]
#[verifier::reject_recursive_types(E)]
pub struct FulfillerWatch<T, E> {
    hub: Rc<SharedHub<T, E>>,
}

impl<T, E: FulfillerDropped> Watch for FulfillerWatch<T, E> {
    fn poll(&mut self) -> bool {
        let mut hub = self.hub.take();
        let done = if hub.result.is_some() {
            true
        } else if !self.hub.fulfiller_alive() {
            hub.resolve(Err(E::fulfiller_dropped()));
            true
        } else {
            match &hub.on_ready_event {
                OnReadyEvent::Full(event) => !event.is_live(),
                _ => true,
            }
        };
        self.hub.put(hub);
        done
    }
}

/// The shared state of a `TaskSet`: the reaper to report to while the set exists,
/// and what keeps the unfinished tasks' events alive.
#[verifier::reject_recursive_types(T)]
#[verifier::reject_recursive_types(E)]
pub struct TaskSetImpl<T, E> {
    event_loop: EventLoop,
    reaper: Rc<FreeCell<Option<Box<dyn TaskReaper<T, E>>>>>,
    /// The droppers of the tasks' events, by task.
    droppers: HandleTable<EventDropper>,
    /// The tasks that have finished since the last `add`, whose droppers can go.
    finished: Rc<FreeCell<Vec<Handle>>>,
    alive: Rc<OwnerToken>,
    life: Rc<Rc<OwnerToken>>,
}

impl<T, E> TaskSetImpl<T, E> {
    #[verifier::type_invariant]
    spec fn droppers_wf(self) -> bool {
        self.droppers.wf()
    }

    /// The number of tasks whose events are kept alive.
    pub closed spec fn kept(&self) -> nat {
        self.droppers.active()
    }

    /// The number of places for tasks' droppers, taken or free.
    pub closed spec fn slot_count(&self) -> nat {
        self.droppers.slots().len()
    }
}

impl<T: 'static, E: 'static> TaskSetImpl<T, E> {
    pub fn new(event_loop: &EventLoop, reaper: Box<dyn TaskReaper<T, E>>) -> (s: TaskSetImpl<T, E>)
        ensures
            s.kept() == 0,
            s.slot_count() == 0,
    {
        let alive = Rc::new(OwnerToken);
        let life = Rc::new(alive.clone());
        TaskSetImpl {
            event_loop: event_loop.clone(),
            reaper: Rc::new(FreeCell::new(Some(reaper))),
            droppers: HandleTable::new(),
            finished: Rc::new(FreeCell::new(Vec::new())),
            alive,
            life,
        }
    }

    /// Drops the droppers of the tasks that have finished.
    fn reclaim(&mut self)
        ensures
            final(self).kept() <= old(self).kept(),
            final(self).slot_count() == old(self).slot_count(),
    {
        proof {
            use_type_invariant(&*self);
        }
        let mut done = self.finished.replace(Vec::new());
        let mut droppers = HandleTable::new();
        std::mem::swap(&mut droppers, &mut self.droppers);
        let ghost kept = droppers.active();
        let ghost slots = droppers.slots().len();
        while done.len() > 0
            invariant
                droppers.wf(),
                droppers.active() <= kept,
                droppers.slots().len() == slots,
            decreases done.len(),
        {
            let h = done.pop().unwrap();
            if droppers.is_occupied(h) {
                let _ = droppers.remove(h);
            }
        }
        std::mem::swap(&mut droppers, &mut self.droppers);
    }

    /// Runs `promise` to completion and reports its result to the reaper, unless
    /// the set is gone by then. The task is dropped at once, unrun, in the
    /// unreachable case that the set already keeps `usize::MAX` tasks.
    pub fn add(&mut self, promise: Promise<T, E>)
        ensures
            final(self).kept() <= old(self).kept() + 1,
            final(self).slot_count() <= old(self).slot_count() + 1,
            old(self).kept() < usize::MAX && old(self).slot_count() < usize::MAX ==> final(self).kept() >= 1,
    {
        self.reclaim();
        proof {
            use_type_invariant(&*self);
        }
        if self.droppers.len() < usize::MAX && self.droppers.capacity() < usize::MAX {
            let (mut node, _slot) = promise.into_parts();
            let (handle, dropper) = GuardedEventHandle::new(&self.event_loop);
            node.on_ready(handle.clone());
            let mut droppers = HandleTable::new();
            std::mem::swap(&mut droppers, &mut self.droppers);
            let index = droppers.push(dropper);
            std::mem::swap(&mut droppers, &mut self.droppers);
            let task = Task {
                index,
                finished: self.finished.clone(),
                life: self.life.clone(),
                reaper: self.reaper.clone(),
                promise: Some(node),
            };
            handle.set(Box::new(task));
        }
    }
}

/// The event that finishes one task of a `TaskSet`.
#[verifier::reject_recursive_types(T)]
#[verifier::reject_recursive_types(E)]
pub struct Task<T, E> {
    index: Handle,
    finished: Rc<FreeCell<Vec<Handle>>>,
    life: Rc<Rc<OwnerToken>>,
    reaper: Rc<FreeCell<Option<Box<dyn TaskReaper<T, E>>>>>,
    promise: Option<NodeBox<T, E>>,
}

impl<T, E> Task<T, E> {
    /// Whether the task still holds its promise, that is, has not fired yet.
    pub closed spec fn pending(&self) -> bool {
        self.promise is Some
    }
}

impl<T, E> Event for Task<T, E> {
    /// Fires once: takes the promise and reports its result, so that a later
    /// call finds nothing to do.
    fn fire(&mut self)
        ensures
            !final(self).pending(),
    {
        let maybe_promise = self.promise.take();
        match maybe_promise {
            None => {},
            Some(promise) => {
                if is_held_elsewhere(&*self.life) {
                    let result = promise.get();
                    let maybe_reaper = self.reaper.replace(None);
                    match maybe_reaper {
                        Some(mut reaper) => {
                            match result {
                                Some(Ok(v)) => reaper.task_succeeded(v),
                                Some(Err(e)) => reaper.task_failed(e),
                                None => {},
                            }
                            let _ = self.reaper.replace(Some(reaper));
                        },
                        None => {},
                    }
                    let mut finished = self.finished.replace(Vec::new());
                    finished.push(self.index);
                    let _ = self.finished.replace(finished);
                }
            },
        }
    }
}

} // verus!
