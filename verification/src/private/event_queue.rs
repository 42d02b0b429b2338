//! The queue of armed events, kept as a doubly linked list threaded through the
//! event table, with a dummy head node.
//!
//! Events armed breadth-first go to the back of the queue. Events armed
//! depth-first go right after the insertion point, which is the head outside of a
//! turn and moves to each event armed depth-first during a turn, so that what an
//! event arms depth-first runs next, in the order it was armed.

use vstd::prelude::*;
use std::rc::Rc;
use crate::handle_table::{Handle, HandleTable};
use super::{eh, Event, EventHandle, EventNode, OwnerToken};
use crate::cells::strong_count;

verus! {

pub struct EventQueue {
    events: HandleTable<EventNode>,
    head: EventHandle,
    tail: EventHandle,
    insertion_point: EventHandle,
    currently_firing: Option<EventHandle>,
    next_serial: u64,
    /// The armed events, front first.
    queue: Ghost<Seq<usize>>,
    /// The occupied table slots, head included.
    allocs: Ghost<Set<usize>>,
}


spec fn nexts_of(events: HandleTable<EventNode>) -> spec_fn(usize) -> Option<EventHandle> {
    |i: usize| if events.occupied(i as int) { events.slots()[i as int]->Some_0.next } else { None }
}

spec fn prevs_of(events: HandleTable<EventNode>) -> spec_fn(usize) -> Option<EventHandle> {
    |i: usize| if events.occupied(i as int) { events.slots()[i as int]->Some_0.prev } else { None }
}

/// `q` is the list threaded from `head` through the links `nx` and `pv`.
spec fn list_ok(
    nx: spec_fn(usize) -> Option<EventHandle>,
    pv: spec_fn(usize) -> Option<EventHandle>,
    head: usize,
    q: Seq<usize>,
) -> bool {
    &&& q.no_duplicates()
    &&& forall|i: int|
        #![trigger q[i]]
        0 <= i < q.len() ==> {
            &&& q[i] != head
            &&& pv(q[i]) == Some(eh(if i == 0 { head } else { q[i - 1] }))
            &&& nx(q[i]) == (if i + 1 < q.len() { Some(eh(q[i + 1])) } else { None })
        }
    &&& nx(head) == (if q.len() == 0 { None } else { Some(eh(q[0])) })
}

/// Linking `x` in at position `k` of the list.
proof fn lemma_list_insert(
    nx0: spec_fn(usize) -> Option<EventHandle>,
    pv0: spec_fn(usize) -> Option<EventHandle>,
    nx1: spec_fn(usize) -> Option<EventHandle>,
    pv1: spec_fn(usize) -> Option<EventHandle>,
    head: usize,
    q: Seq<usize>,
    k: int,
    x: usize,
)
    requires
        list_ok(nx0, pv0, head, q),
        0 <= k <= q.len(),
        !q.contains(x),
        x != head,
        nx1(if k == 0 { head } else { q[k - 1] }) == Some(eh(x)),
        pv1(x) == Some(eh(if k == 0 { head } else { q[k - 1] })),
        nx1(x) == (if k < q.len() { Some(eh(q[k])) } else { None }),
        k < q.len() ==> pv1(q[k]) == Some(eh(x)),
        forall|y: usize| y != x && y != (if k == 0 { head } else { q[k - 1] }) ==> #[trigger] nx1(y) == nx0(y),
        forall|y: usize| y != x && (k < q.len() ==> y != q[k]) ==> #[trigger] pv1(y) == pv0(y),
    ensures
        list_ok(nx1, pv1, head, q.insert(k, x)),
{
    let q2 = q.insert(k, x);
    q.insert_ensures(k, x);
    let p = if k == 0 { head } else { q[k - 1] };
    assert forall|i: int| 0 <= i < q2.len() implies {
        &&& #[trigger] q2[i] != head
        &&& pv1(q2[i]) == Some(eh(if i == 0 { head } else { q2[i - 1] }))
        &&& nx1(q2[i]) == (if i + 1 < q2.len() { Some(eh(q2[i + 1])) } else { None })
    } by {
        if i < k {
            assert(q2[i] == q[i]);
            assert(q[i] != x);
            if i + 1 < k {
                assert(q[i] != q[k - 1]);
            }
            if k < q.len() {
                assert(q[i] != q[k]);
            }
        } else if i > k {
            assert(q2[i] == q[i - 1]);
            assert(q[i - 1] != x);
            if i - 1 != k {
                assert(q[i - 1] != q[k]);
            }
            if k > 0 {
                assert(q[i - 1] != q[k - 1]);
            }
        }
    }
    assert forall|a: int, b: int| 0 <= a < b < q2.len() implies q2[a] != q2[b] by {
        if a == k {
            assert(q.contains(q2[b]));
        } else if b == k {
            assert(q.contains(q2[a]));
        } else {
            let a0 = if a < k { a } else { a - 1 };
            let b0 = if b < k { b } else { b - 1 };
            assert(q[a0] != q[b0]);
        }
    }
    if k > 0 && q.len() > 0 {
        assert(q[0] != head);
        assert(q[k - 1] != head);
    }
}

/// Unlinking position `k` of the list.
proof fn lemma_list_remove(
    nx0: spec_fn(usize) -> Option<EventHandle>,
    pv0: spec_fn(usize) -> Option<EventHandle>,
    nx1: spec_fn(usize) -> Option<EventHandle>,
    pv1: spec_fn(usize) -> Option<EventHandle>,
    head: usize,
    q: Seq<usize>,
    k: int,
)
    requires
        list_ok(nx0, pv0, head, q),
        0 <= k < q.len(),
        nx1(if k == 0 { head } else { q[k - 1] }) == (if k + 1 < q.len() { Some(eh(q[k + 1])) } else { None }),
        k + 1 < q.len() ==> pv1(q[k + 1]) == Some(eh(if k == 0 { head } else { q[k - 1] })),
        forall|y: usize| y != q[k] && y != (if k == 0 { head } else { q[k - 1] }) ==> #[trigger] nx1(y) == nx0(y),
        forall|y: usize| y != q[k] && (k + 1 < q.len() ==> y != q[k + 1]) ==> #[trigger] pv1(y) == pv0(y),
    ensures
        list_ok(nx1, pv1, head, q.remove(k)),
{
    let q2 = q.remove(k);
    q.remove_ensures(k);
    assert forall|i: int| 0 <= i < q2.len() implies {
        &&& #[trigger] q2[i] != head
        &&& pv1(q2[i]) == Some(eh(if i == 0 { head } else { q2[i - 1] }))
        &&& nx1(q2[i]) == (if i + 1 < q2.len() { Some(eh(q2[i + 1])) } else { None })
    } by {
        if i < k {
            assert(q2[i] == q[i]);
            assert(q[i] != q[k]);
            if k + 1 < q.len() {
                assert(q[i] != q[k + 1]);
            }
            if i + 1 < k {
                assert(q[i] != q[k - 1]);
            }
        } else {
            assert(q2[i] == q[i + 1]);
            assert(q[i + 1] != q[k]);
            if k > 0 {
                assert(q[i + 1] != q[k - 1]);
            }
            if i > k {
                assert(q[i + 1] != q[k + 1]);
            }
        }
    }
    assert forall|a: int, b: int| 0 <= a < b < q2.len() implies q2[a] != q2[b] by {
        let a0 = if a < k { a } else { a + 1 };
        let b0 = if b < k { b } else { b + 1 };
        assert(q[a0] != q[b0]);
    }
    if q.len() > 1 {
        assert(q[0] != head);
    }
    if k > 0 {
        assert(q[k - 1] != head);
    }
}

impl EventQueue {
    spec fn node(&self, i: usize) -> EventNode {
        self.events.slots()[i as int]->Some_0
    }

    spec fn nexts(&self) -> spec_fn(usize) -> Option<EventHandle> {
        nexts_of(self.events)
    }

    spec fn prevs(&self) -> spec_fn(usize) -> Option<EventHandle> {
        prevs_of(self.events)
    }

    /// The table indices of the armed events, in the order they will fire.
    pub closed spec fn armed(&self) -> Seq<usize> {
        self.queue@
    }

    /// The index of the dummy head node.
    pub closed spec fn head(&self) -> usize {
        self.head.0.val
    }

    /// The node after which the next depth-first arm inserts.
    pub closed spec fn insertion_point(&self) -> usize {
        self.insertion_point.0.val
    }

    /// The event being fired by the current turn, if a turn is under way.
    pub closed spec fn firing(&self) -> Option<usize> {
        match self.currently_firing {
            Some(c) => Some(c.0.val),
            None => None,
        }
    }

    /// Whether table slot `i` holds an event node.
    pub closed spec fn allocated(&self, i: usize) -> bool {
        self.events.occupied(i as int)
    }

    /// The serial number given to the node at `i` when it was allocated.
    pub closed spec fn serial(&self, i: usize) -> u64 {
        self.node(i).serial
    }

    /// The event stored at `i`, if one is.
    pub closed spec fn payload(&self, i: usize) -> Option<Box<dyn Event>> {
        self.node(i).event
    }

    /// The number of table slots, free ones included.
    pub closed spec fn slot_count(&self) -> nat {
        self.events.slots().len()
    }

    /// The number of allocated nodes besides the head.
    pub closed spec fn live(&self) -> nat {
        (self.events.active() - 1) as nat
    }

    /// `h` names a node other than the head, allocated with serial number `serial`.
    pub open spec fn valid(&self, h: EventHandle, serial: u64) -> bool {
        &&& self.allocated(h.0.val)
        &&& h.0.val != self.head()
        &&& self.serial(h.0.val) == serial
    }

    /// The position in `armed()` after which a depth-first arm inserts: -1 for the head.
    pub open spec fn insertion_index(&self) -> int {
        if self.insertion_point() == self.head() {
            -1
        } else {
            self.armed().index_of(self.insertion_point())
        }
    }


    /// `self` and `other` hold the same nodes with the same serials and events,
    /// except possibly at `h`.
    pub open spec fn nodes_agree_except(&self, other: &EventQueue, h: usize) -> bool {
        forall|i: usize|
            i != h ==> {
                &&& self.allocated(i) == other.allocated(i)
                &&& self.allocated(i) ==> self.serial(i) == other.serial(i) && self.payload(i) == other.payload(i)
            }
    }


    /// `self` and `other` hold the same nodes with the same serials and events.
    pub open spec fn nodes_agree(&self, other: &EventQueue) -> bool {
        forall|i: usize|
            {
                &&& self.allocated(i) == other.allocated(i)
                &&& self.allocated(i) ==> self.serial(i) == other.serial(i) && self.payload(i) == other.payload(i)
            }
    }

    /// Whether `h` names a node other than the head, with serial number `serial`.
    pub fn is_valid(&self, h: EventHandle, serial: u64) -> (b: bool)
        ensures
            b == self.valid(h, serial),
    {
        self.events.is_occupied(h.0) && h.0.val != self.head.0.val && self.events.get(h.0).serial == serial
    }

    /// Stores `event` in the node of `h`, replacing what it held. Does nothing when
    /// `h` and `serial` name no node.
    pub fn set_event(self, h: EventHandle, serial: u64, event: Box<dyn Event>) -> (r: EventQueue)
        ensures
            r.armed() == self.armed(),
            r.head() == self.head(),
            r.insertion_point() == self.insertion_point(),
            r.firing() == self.firing(),
            r.live() == self.live(),
            r.nodes_agree_except(&self, h.0.val),
            self.valid(h, serial) ==> r.valid(h, serial) && r.payload(h.0.val) == Some(event),
            !self.valid(h, serial) ==> r == self,
    {
        proof {
            use_type_invariant(&self);
        }
        if !self.is_valid(h, serial) {
            return self;
        }
        let EventQueue { mut events, head, tail, insertion_point, currently_firing, next_serial, queue, allocs } = self;
        let ghost e0 = events;
        let ghost ev = event;
        let slot = Some(event);
        assert(slot == Some(ev));
        events.get_mut(h.0).event = slot;
        proof {
            assert forall|i: usize| i != h.0.val && (i as int) < e0.slots().len() implies #[trigger] events.slots()[i as int] == e0.slots()[i as int] by {}
            assert forall|i: usize| #[trigger] events.occupied(i as int) == e0.occupied(i as int) by {}
            assert(events.occupied(h.0.val as int));
            assert(events.slots()[h.0.val as int]->Some_0.serial == serial);
            assert(events.slots()[h.0.val as int]->Some_0.event == Some(ev));
        }
        EventQueue { events, head, tail, insertion_point, currently_firing, next_serial, queue, allocs }
    }

    /// Appends the node of `h` to the back of the queue. Does nothing when `h` and
    /// `serial` name no node, or when the node is already armed.
    pub fn arm_breadth_first(self, h: EventHandle, serial: u64) -> (r: EventQueue)
        ensures
            r.head() == self.head(),
            r.insertion_point() == self.insertion_point(),
            r.firing() == self.firing(),
            r.live() == self.live(),
            r.nodes_agree(&self),
            if self.valid(h, serial) && !self.armed().contains(h.0.val) {
                r.armed() == self.armed().push(h.0.val)
            } else {
                r.armed() == self.armed()
            },
    {
        proof {
            use_type_invariant(&self);
        }
        if !self.is_valid(h, serial) {
            return self;
        }
        if self.events.get(h.0).prev.is_some() {
            proof {
                assert(self.armed().contains(h.0.val));
            }
            return self;
        }
        let EventQueue { mut events, head, tail, insertion_point, currently_firing, next_serial, queue, allocs } = self;
        let ghost q = queue@;
        let ghost e0 = events;
        proof {
            assert(!q.contains(h.0.val)) by {
                if q.contains(h.0.val) {
                    let k = choose|k: int| 0 <= k < q.len() && q[k] == h.0.val;
                    assert(q[k] == h.0.val);
                }
            }
            assert(tail.0.val != h.0.val);
            assert(e0.occupied(tail.0.val as int)) by {
                if q.len() > 0 {
                    assert(q[q.len() - 1] == q.last());
                }
            }
        }
        events.get_mut(tail.0).next = Some(h);
        let ghost e1 = events;
        events.get_mut(h.0).prev = Some(tail);
        let ghost q2 = q.push(h.0.val);
        proof {
            assert forall|i: usize| i != h.0.val && i != tail.0.val && (i as int) < e0.slots().len() implies
                #[trigger] events.slots()[i as int] == e0.slots()[i as int] by {}
            assert(q2.contains(h.0.val)) by {
                assert(q2[q.len() as int] == h.0.val);
            }
            assert forall|i: usize| #[trigger] events.occupied(i as int) == e0.occupied(i as int) by {}
            assert forall|i: int| 0 <= i < q2.len() implies {
                &&& events.occupied(#[trigger] q2[i] as int)
                &&& q2[i] != head.0.val
                &&& events.slots()[q2[i] as int]->Some_0.prev == Some(eh(if i == 0 { head.0.val } else { q2[i - 1] }))
                &&& events.slots()[q2[i] as int]->Some_0.next == (if i + 1 < q2.len() { Some(eh(q2[i + 1])) } else { None })
            } by {
                if i < q.len() {
                    assert(q2[i] == q[i]);
                    assert(e0.slots()[q[i] as int]->Some_0.prev == Some(eh(if i == 0 { head.0.val } else { q[i - 1] })));
                    if i + 1 == q.len() {
                        assert(q[i] == q.last());
                    }
                } else {
                    assert(q2[i] == h.0.val);
                }
            }
            assert(q2.no_duplicates()) by {
                assert forall|a: int, b: int| 0 <= a < b < q2.len() implies q2[a] != q2[b] by {
                    if b == q.len() {
                        assert(q.contains(q[a]));
                    } else {
                        assert(q[a] != q[b]);
                    }
                }
            }
            assert forall|i: usize| #[trigger] events.occupied(i as int) && i != head.0.val && !q2.contains(i) implies {
                &&& events.slots()[i as int]->Some_0.prev is None
                &&& events.slots()[i as int]->Some_0.next is None
            } by {
                assert(i != h.0.val);
                assert(!q.contains(i)) by {
                    if q.contains(i) {
                        let k = choose|k: int| 0 <= k < q.len() && q[k] == i;
                        assert(q2[k] == i);
                    }
                }
                if i == tail.0.val {
                    if q.len() > 0 {
                        assert(q[q.len() - 1] == q.last());
                    }
                }
            }
            assert(q2.contains(insertion_point.0.val) || insertion_point.0.val == head.0.val) by {
                if q.contains(insertion_point.0.val) {
                    let k = choose|k: int| 0 <= k < q.len() && q[k] == insertion_point.0.val;
                    assert(q2[k] == insertion_point.0.val);
                }
            }
            if q.len() > 0 {
                assert(q2[0] == q[0]);
            }
        }
        EventQueue { events, head, tail: h, insertion_point, currently_firing, next_serial, queue: Ghost(q2), allocs }
    }


    /// Inserts the node of `h` right after the insertion point, and makes it the new
    /// insertion point. Does nothing when `h` and `serial` name no node, or when the
    /// node is already armed.
    pub fn arm_depth_first(self, h: EventHandle, serial: u64) -> (r: EventQueue)
        ensures
            r.head() == self.head(),
            r.firing() == self.firing(),
            r.live() == self.live(),
            r.nodes_agree(&self),
            if self.valid(h, serial) && !self.armed().contains(h.0.val) {
                &&& r.armed() == self.armed().insert(self.insertion_index() + 1, h.0.val)
                &&& r.insertion_point() == h.0.val
            } else {
                &&& r.armed() == self.armed()
                &&& r.insertion_point() == self.insertion_point()
            },
    {
        proof {
            use_type_invariant(&self);
        }
        if !self.is_valid(h, serial) {
            return self;
        }
        if self.events.get(h.0).prev.is_some() {
            proof {
                assert(self.armed().contains(h.0.val));
            }
            return self;
        }
        let ghost k = self.insertion_index() + 1;
        let EventQueue { mut events, head, mut tail, insertion_point, currently_firing, next_serial, queue, allocs } = self;
        let ghost q = queue@;
        let ghost e0 = events;
        let p = insertion_point;
        proof {
            assert(!q.contains(h.0.val)) by {
                if q.contains(h.0.val) {
                    let j = choose|j: int| 0 <= j < q.len() && q[j] == h.0.val;
                    assert(q[j] == h.0.val);
                }
            }
            if p.0.val != head.0.val {
                assert(q[k - 1] == p.0.val);
                assert(0 <= k - 1 < q.len());
            } else {
                assert(k == 0);
            }
            assert(e0.occupied(p.0.val as int)) by {
                if p.0.val != head.0.val {
                    assert(q[k - 1] == p.0.val);
                }
            }
            assert(p.0.val != h.0.val);
            assert(e0.slots()[p.0.val as int]->Some_0.next == (if k < q.len() { Some(eh(q[k])) } else { None })) by {
                if p.0.val != head.0.val {
                    assert(q[k - 1] == p.0.val);
                }
            }
        }
        let pn = events.get(p.0).next;
        let ghost e1 = events;
        match pn {
            Some(n) => {
                proof {
                    assert(n.0.val == q[k]);
                    assert(n.0.val != h.0.val);
                    assert(n.0.val != p.0.val) by {
                        if p.0.val != head.0.val {
                            assert(q[k - 1] != q[k]);
                        }
                    }
                }
                events.get_mut(n.0).prev = Some(h);
                events.get_mut(h.0).next = Some(n);
            },
            None => {
                tail = h;
            },
        }
        let ghost e2 = events;
        events.get_mut(h.0).prev = Some(p);
        events.get_mut(p.0).next = Some(h);
        let ghost q2 = q.insert(k, h.0.val);
        proof {
            q.insert_ensures(k, h.0.val);
            let nv: int = if k < q.len() { q[k] as int } else { -1 };
            assert forall|x: usize| x != h.0.val && x != p.0.val && x as int != nv && (x as int) < e0.slots().len() implies
                #[trigger] events.slots()[x as int] == e0.slots()[x as int] by {}
            assert forall|x: usize| #[trigger] events.occupied(x as int) == e0.occupied(x as int) by {}
            assert forall|y: usize| y != h.0.val && y != p.0.val implies #[trigger] nexts_of(events)(y) == nexts_of(e0)(y) by {
                if (y as int) < e0.slots().len() && y as int != nv {
                }
            }
            assert forall|y: usize| y != h.0.val && (k < q.len() ==> y != q[k]) implies #[trigger] prevs_of(events)(y) == prevs_of(e0)(y) by {
                if (y as int) < e0.slots().len() && y != p.0.val {
                }
            }
            lemma_list_insert(nexts_of(e0), prevs_of(e0), nexts_of(events), prevs_of(events), head.0.val, q, k, h.0.val);
            assert forall|i: int| 0 <= i < q2.len() implies events.occupied(#[trigger] q2[i] as int) by {
                if i != k {
                    let i0 = if i < k { i } else { i - 1 };
                    assert(q2[i] == q[i0]);
                }
            }
            assert(q2.contains(h.0.val)) by {
                assert(q2[k] == h.0.val);
            }
            assert forall|x: usize| #[trigger] events.occupied(x as int) && x != head.0.val && !q2.contains(x) implies {
                &&& events.slots()[x as int]->Some_0.prev is None
                &&& events.slots()[x as int]->Some_0.next is None
            } by {
                assert(!q.contains(x)) by {
                    if q.contains(x) {
                        let j = choose|j: int| 0 <= j < q.len() && q[j] == x;
                        if j < k {
                            assert(q2[j] == x);
                        } else {
                            assert(q2[j + 1] == x);
                        }
                    }
                }
                assert(x != p.0.val) by {
                    if p.0.val != head.0.val {
                        assert(q[k - 1] == p.0.val);
                    }
                }
                assert(x as int != nv) by {
                    if k < q.len() {
                        assert(q[k] as int == nv);
                    }
                }
            }
            if p.0.val != head.0.val {
                assert(q2[0] == q[0]);
            }
            if k < q.len() {
                assert(q2[q2.len() - 1] == q[q.len() - 1]);
            } else {
                assert(q2[q2.len() - 1] == h.0.val);
            }
        }
        EventQueue { events, head, tail, insertion_point: h, currently_firing, next_serial, queue: Ghost(q2), allocs }
    }


    /// Starts a turn: takes the event out of the front node and marks that node as
    /// firing, with the insertion point on it. Returns `None`, changing nothing, when
    /// the queue is empty or a turn is already under way.
    pub fn begin_turn(self) -> (r: (EventQueue, Option<(EventHandle, Option<Box<dyn Event>>)>))
        ensures
            r.0.head() == self.head(),
            r.0.live() == self.live(),
            r.0.armed() == self.armed(),
            if self.firing() is None && self.armed().len() > 0 {
                let c = self.armed()[0];
                &&& r.1 == Some((eh(c), self.payload(c)))
                &&& r.0.firing() == Some(c)
                &&& r.0.insertion_point() == c
                &&& r.0.allocated(c) && r.0.serial(c) == self.serial(c)
                &&& r.0.payload(c) is None
                &&& r.0.nodes_agree_except(&self, c)
            } else {
                &&& r.1 is None
                &&& r.0 == self
            },
    {
        proof {
            use_type_invariant(&self);
        }
        if self.currently_firing.is_some() {
            return (self, None);
        }
        let first = self.events.get(self.head.0).next;
        match first {
            None => (self, None),
            Some(c) => {
                let EventQueue { mut events, head, tail, insertion_point, currently_firing, next_serial, queue, allocs } = self;
                let ghost q = queue@;
                let ghost e0 = events;
                proof {
                    assert(c.0.val == q[0]);
                    assert(e0.occupied(q[0] as int));
                }
                let ev = events.get_mut(c.0).event.take();
                proof {
                    assert forall|x: usize| x != c.0.val && (x as int) < e0.slots().len() implies
                        #[trigger] events.slots()[x as int] == e0.slots()[x as int] by {}
                    assert forall|x: usize| #[trigger] events.occupied(x as int) == e0.occupied(x as int) by {}
                    assert(nexts_of(events) =~= nexts_of(e0));
                    assert(prevs_of(events) =~= prevs_of(e0));
                    assert(q.contains(c.0.val)) by {
                        assert(q[0] == c.0.val);
                    }
                }
                let q2 = EventQueue {
                    events,
                    head,
                    tail,
                    insertion_point: c,
                    currently_firing: Some(c),
                    next_serial,
                    queue,
                    allocs,
                };
                (q2, Some((c, ev)))
            },
        }
    }

    /// Ends the turn begun by `begin_turn`: unlinks the node that fired from the front
    /// of the queue and puts the insertion point back on the head. Does nothing when no
    /// turn is under way.
    pub fn end_turn(self) -> (r: EventQueue)
        ensures
            r.head() == self.head(),
            r.live() == self.live(),
            r.nodes_agree(&self),
            r.firing() is None,
            if self.firing() is Some {
                &&& r.armed() == self.armed().drop_first()
                &&& r.insertion_point() == r.head()
            } else {
                r == self
            },
    {
        proof {
            use_type_invariant(&self);
        }
        match self.currently_firing {
            None => self,
            Some(c) => {
                let EventQueue { mut events, head, mut tail, insertion_point, currently_firing, next_serial, queue, allocs } = self;
                let ghost q = queue@;
                let ghost e0 = events;
                proof {
                    assert(q[0] == c.0.val);
                    assert(e0.occupied(q[0] as int));
                    assert(c.0.val != head.0.val);
                }
                let next = events.get(c.0).next;
                proof {
                    if q.len() > 1 {
                        assert(next == Some(eh(q[1])));
                        assert(e0.occupied(q[1] as int));
                        assert(q[1] != c.0.val);
                        assert(q[1] != head.0.val);
                    } else {
                        assert(next is None);
                    }
                }
                events.get_mut(head.0).next = next;
                match next {
                    Some(n) => {
                        events.get_mut(n.0).prev = Some(head);
                    },
                    None => {},
                }
                events.get_mut(c.0).next = None;
                events.get_mut(c.0).prev = None;
                if tail.0.val == c.0.val {
                    tail = head;
                }
                let ghost q2 = q.remove(0);
                proof {
                    q.remove_ensures(0);
                    assert(q2 =~= q.drop_first());
                    let nv: int = if q.len() > 1 { q[1] as int } else { -1 };
                    assert forall|x: usize| x != c.0.val && x != head.0.val && x as int != nv && (x as int) < e0.slots().len() implies
                        #[trigger] events.slots()[x as int] == e0.slots()[x as int] by {}
                    assert forall|x: usize| #[trigger] events.occupied(x as int) == e0.occupied(x as int) by {}
                    assert forall|y: usize| y != c.0.val && y != head.0.val implies #[trigger] nexts_of(events)(y) == nexts_of(e0)(y) by {}
                    assert forall|y: usize| y != c.0.val && (1 < q.len() ==> y != q[1]) implies #[trigger] prevs_of(events)(y) == prevs_of(e0)(y) by {}
                    lemma_list_remove(nexts_of(e0), prevs_of(e0), nexts_of(events), prevs_of(events), head.0.val, q, 0);
                    assert forall|i: int| 0 <= i < q2.len() implies events.occupied(#[trigger] q2[i] as int) by {
                        assert(q2[i] == q[i + 1]);
                    }
                    assert forall|x: usize| #[trigger] events.occupied(x as int) && x != head.0.val && !q2.contains(x) implies {
                        &&& events.slots()[x as int]->Some_0.prev is None
                        &&& events.slots()[x as int]->Some_0.next is None
                    } by {
                        if x != c.0.val {
                            assert(!q.contains(x)) by {
                                if q.contains(x) {
                                    let j = choose|j: int| 0 <= j < q.len() && q[j] == x;
                                    assert(j != 0);
                                    assert(q2[j - 1] == x);
                                }
                            }
                            assert(x as int != nv) by {
                                if q.len() > 1 {
                                    assert(q2[0] == q[1]);
                                }
                            }
                        }
                    }
                    if q.len() > 1 {
                        assert(tail.0.val == q.last());
                        assert(q[q.len() - 1] != q[0]);
                        assert(q2[q2.len() - 1] == q[q.len() - 1]);
                    }
                    assert forall|i: usize| #[trigger] allocs@.contains(i) <==> events.occupied(i as int) by {}
                }
                EventQueue {
                    events,
                    head,
                    tail,
                    insertion_point: head,
                    currently_firing: None,
                    next_serial,
                    queue: Ghost(q2),
                    allocs,
                }
            },
        }
    }

    /// The position of `h` among the armed events.
    pub open spec fn position(&self, h: usize) -> int {
        self.armed().index_of(h)
    }

    /// The node before `h` in the queue: the head when `h` is first.
    pub open spec fn predecessor(&self, h: usize) -> usize {
        if self.position(h) == 0 {
            self.head()
        } else {
            self.armed()[self.position(h) - 1]
        }
    }

    /// Takes the armed node of `h` out of the queue, leaving it allocated and unarmed.
    fn unlink(self, h: EventHandle) -> (r: EventQueue)
        requires
            self.armed().contains(h.0.val),
            self.firing() != Some(h.0.val),
        ensures
            r.head() == self.head(),
            r.firing() == self.firing(),
            r.live() == self.live(),
            r.nodes_agree(&self),
            r.armed() == self.armed().remove(self.position(h.0.val)),
            r.insertion_point() == if self.insertion_point() == h.0.val {
                self.predecessor(h.0.val)
            } else {
                self.insertion_point()
            },
    {
        proof {
            use_type_invariant(&self);
        }
        let EventQueue { mut events, head, mut tail, mut insertion_point, currently_firing, next_serial, queue, allocs } = self;
        let ghost q = queue@;
        let ghost e0 = events;
        let ghost k = q.index_of(h.0.val);
        let ghost pv: usize = if k == 0 { head.0.val } else { q[k - 1] };
        let ghost nv: int = if k + 1 < q.len() { q[k + 1] as int } else { -1 };
        proof {
            assert(0 <= k < q.len() && q[k] == h.0.val);
            assert(e0.occupied(h.0.val as int));
            assert(e0.occupied(pv as int)) by {
                if k > 0 {
                    assert(e0.occupied(q[k - 1] as int));
                }
            }
            if k > 0 {
                assert(q[k - 1] != q[k]);
            }
            if k + 1 < q.len() {
                assert(q[k + 1] != q[k]);
                assert(e0.occupied(q[k + 1] as int));
                if k > 0 {
                    assert(q[k + 1] != q[k - 1]);
                }
            }
        }
        let p = events.get(h.0).prev.unwrap();
        let n = events.get(h.0).next;
        proof {
            assert(p.0.val == pv);
            assert(n == (if k + 1 < q.len() { Some(eh(q[k + 1])) } else { None }));
        }
        events.get_mut(p.0).next = n;
        match n {
            Some(nn) => {
                events.get_mut(nn.0).prev = Some(p);
            },
            None => {},
        }
        events.get_mut(h.0).next = None;
        events.get_mut(h.0).prev = None;
        if tail.0.val == h.0.val {
            tail = p;
        }
        if insertion_point.0.val == h.0.val {
            insertion_point = p;
        }
        let ghost q2 = q.remove(k);
        proof {
            q.remove_ensures(k);
            assert forall|x: usize| x != h.0.val && x != pv && x as int != nv && (x as int) < e0.slots().len() implies
                #[trigger] events.slots()[x as int] == e0.slots()[x as int] by {}
            assert forall|x: usize| #[trigger] events.occupied(x as int) == e0.occupied(x as int) by {}
            assert forall|y: usize| y != q[k] && y != pv implies #[trigger] nexts_of(events)(y) == nexts_of(e0)(y) by {}
            assert forall|y: usize| y != q[k] && (k + 1 < q.len() ==> y != q[k + 1]) implies #[trigger] prevs_of(events)(y) == prevs_of(e0)(y) by {}
            lemma_list_remove(nexts_of(e0), prevs_of(e0), nexts_of(events), prevs_of(events), head.0.val, q, k);
        }
        proof {
            assert forall|i: int| 0 <= i < q2.len() implies events.occupied(#[trigger] q2[i] as int) by {
                let i0 = if i < k { i } else { i + 1 };
                assert(q2[i] == q[i0]);
            }
            assert forall|x: usize| #[trigger] events.occupied(x as int) && x != head.0.val && !q2.contains(x) implies {
                &&& events.slots()[x as int]->Some_0.prev is None
                &&& events.slots()[x as int]->Some_0.next is None
            } by {
                if x != h.0.val {
                    assert(!q.contains(x)) by {
                        if q.contains(x) {
                            let j = choose|j: int| 0 <= j < q.len() && q[j] == x;
                            if j < k {
                                assert(q2[j] == x);
                            } else {
                                assert(q2[j - 1] == x);
                            }
                        }
                    }
                    assert(x != pv) by {
                        if k > 0 {
                            assert(q2[k - 1] == q[k - 1]);
                        }
                    }
                    assert(x as int != nv) by {
                        if k + 1 < q.len() {
                            assert(q2[k] == q[k + 1]);
                        }
                    }
                }
            }
        }
        proof {
            if q2.len() > 0 {
                if k + 1 < q.len() {
                    assert(q2[q2.len() - 1] == q[q.len() - 1]);
                    assert(q[q.len() - 1] != h.0.val);
                } else {
                    assert(q2[q2.len() - 1] == q[k - 1]);
                }
            }
            if insertion_point.0.val != head.0.val {
                if insertion_point.0.val == pv {
                    assert(q2[k - 1] == pv);
                } else {
                    let j = choose|j: int| 0 <= j < q.len() && q[j] == insertion_point.0.val;
                    assert(j != k);
                    if j < k {
                        assert(q2[j] == insertion_point.0.val);
                    } else {
                        assert(q2[j - 1] == insertion_point.0.val);
                    }
                }
            }
            match currently_firing {
                Some(c) => {
                    assert(q[0] == c.0.val);
                    assert(k != 0);
                    assert(q2[0] == q[0]);
                },
                None => {},
            }
            assert forall|i: usize| #[trigger] allocs@.contains(i) <==> events.occupied(i as int) by {}
        }
        EventQueue { events, head, tail, insertion_point, currently_firing, next_serial, queue: Ghost(q2), allocs }
    }

    /// Frees the node of `h`, which is not armed, and returns the event it held.
    fn free_unarmed(self, h: EventHandle) -> (r: (EventQueue, Option<Box<dyn Event>>))
        requires
            self.allocated(h.0.val),
            h.0.val != self.head(),
            !self.armed().contains(h.0.val),
            self.firing() != Some(h.0.val),
        ensures
            r.0.head() == self.head(),
            r.0.firing() == self.firing(),
            r.0.armed() == self.armed(),
            r.0.insertion_point() == self.insertion_point(),
            r.0.nodes_agree_except(&self, h.0.val),
            r.1 == self.payload(h.0.val),
            !r.0.allocated(h.0.val),
            r.0.live() + 1 == self.live(),
    {
        proof {
            use_type_invariant(&self);
        }
        let EventQueue { mut events, head, tail, insertion_point, currently_firing, next_serial, queue, allocs } = self;
        let ghost q = queue@;
        let ghost e0 = events;
        proof {
            assert(allocs@.contains(head.0.val));
            assert(allocs@.contains(h.0.val));
            assert(allocs@.remove(head.0.val).contains(h.0.val));
            assert(allocs@.remove(head.0.val).len() == allocs@.len() - 1);
            assert(allocs@.remove(head.0.val).remove(h.0.val).len() == allocs@.len() - 2);
            assert(allocs@.remove(h.0.val).len() == allocs@.len() - 1);
        }
        let removed = events.remove(h.0);
        let node = removed.unwrap();
        let ghost allocs2 = allocs@.remove(h.0.val);
        proof {
            assert(tail.0.val != h.0.val) by {
                if q.len() > 0 {
                    assert(q[q.len() - 1] == q.last());
                }
            }
            assert forall|x: usize| x != h.0.val && (x as int) < e0.slots().len() implies
                #[trigger] events.slots()[x as int] == e0.slots()[x as int] by {}
            assert forall|x: usize| x != h.0.val implies #[trigger] events.occupied(x as int) == e0.occupied(x as int) by {}
            assert forall|y: usize| #[trigger] nexts_of(events)(y) == nexts_of(e0)(y) by {}
            assert forall|y: usize| #[trigger] prevs_of(events)(y) == prevs_of(e0)(y) by {}
            assert(nexts_of(events) =~= nexts_of(e0));
            assert(prevs_of(events) =~= prevs_of(e0));
            assert forall|i: int| 0 <= i < q.len() implies events.occupied(#[trigger] q[i] as int) by {
                assert(q[i] != h.0.val);
            }
            assert forall|i: usize| #[trigger] allocs2.contains(i) <==> events.occupied(i as int) by {}
        }
        let q3 = EventQueue { events, head, tail, insertion_point, currently_firing, next_serial, queue, allocs: Ghost(allocs2) };
        (q3, node.event)
    }

    /// Frees the node of `h`, unlinking it from the queue if it is armed, and
    /// returns the event it held. Does nothing when `h` and `serial` name no node or
    /// name the node being fired.
    pub fn remove_event(self, h: EventHandle, serial: u64) -> (r: (EventQueue, Option<Box<dyn Event>>))
        ensures
            r.0.head() == self.head(),
            r.0.firing() == self.firing(),
            r.0.nodes_agree_except(&self, h.0.val),
            if self.valid(h, serial) && self.firing() != Some(h.0.val) {
                &&& r.1 == self.payload(h.0.val)
                &&& !r.0.allocated(h.0.val)
                &&& r.0.live() + 1 == self.live()
                &&& r.0.armed() == if self.armed().contains(h.0.val) {
                    self.armed().remove(self.position(h.0.val))
                } else {
                    self.armed()
                }
                &&& r.0.insertion_point() == if self.insertion_point() == h.0.val {
                    self.predecessor(h.0.val)
                } else {
                    self.insertion_point()
                }
            } else {
                &&& r.1 is None
                &&& r.0 == self
            },
    {
        proof {
            use_type_invariant(&self);
        }
        if !self.is_valid(h, serial) {
            return (self, None);
        }
        match self.currently_firing {
            Some(c) => {
                if c.0.val == h.0.val {
                    return (self, None);
                }
            },
            None => {},
        }
        let armed = self.events.get(h.0).prev.is_some();
        if armed {
            let ghost q = self.armed();
            let unlinked = self.unlink(h);
            proof {
                let k = q.index_of(h.0.val);
                q.remove_ensures(k);
                assert(!unlinked.armed().contains(h.0.val)) by {
                    if unlinked.armed().contains(h.0.val) {
                        let j = choose|j: int| 0 <= j < unlinked.armed().len() && unlinked.armed()[j] == h.0.val;
                        if j < k {
                            assert(q[j] == h.0.val);
                        } else {
                            assert(q[j + 1] == h.0.val);
                        }
                    }
                }
            }
            unlinked.free_unarmed(h)
        } else {
            proof {
                assert(!self.armed().contains(h.0.val)) by {
                    if self.armed().contains(h.0.val) {
                        let j = choose|j: int| 0 <= j < self.armed().len() && self.armed()[j] == h.0.val;
                        assert(self.armed()[j] == h.0.val);
                    }
                }
            }
            self.free_unarmed(h)
        }
    }


    /// Whether the node of `h` is still owned: something besides the node holds its
    /// owner token. Always false for the head and for handles that name no node.
    pub fn owner_alive(&self, h: EventHandle, serial: u64) -> (b: bool)
        ensures
            b ==> self.valid(h, serial),
    {
        if self.is_valid(h, serial) {
            strong_count(&self.events.get(h.0).owner) > 1
        } else {
            false
        }
    }

    /// The number of allocated nodes besides the head.
    pub fn live_count(&self) -> (n: usize)
        ensures
            n == self.live(),
    {
        proof {
            use_type_invariant(self);
            assert(self.allocs@.contains(self.head.0.val));
            assert(self.allocs@.remove(self.head.0.val).len() == self.allocs@.len() - 1);
        }
        self.events.len() - 1
    }

    /// Frees every node whose owner is gone, except the head and the node being
    /// fired, and returns their events so that the caller can drop them. Every event
    /// that stays armed was armed before, and the head and the firing node stay.
    pub fn sweep(self) -> (r: (EventQueue, Vec<Box<dyn Event>>))
        ensures
            r.0.head() == self.head(),
            r.0.firing() == self.firing(),
            forall|x: usize| r.0.armed().contains(x) ==> self.armed().contains(x),
            r.0.live() <= self.live(),
    {
        let mut q = self;
        let mut garbage: Vec<Box<dyn Event>> = Vec::new();
        let n = q.events.capacity();
        let mut i: usize = 0;
        while i < n
            invariant
                q.head() == self.head(),
                q.firing() == self.firing(),
                forall|x: usize| q.armed().contains(x) ==> self.armed().contains(x),
                q.live() <= self.live(),
            decreases n - i,
        {
            let h = EventHandle(Handle { val: i });
            if q.events.is_occupied(h.0) && i != q.head.0.val {
                let serial = q.events.get(h.0).serial;
                if !q.owner_alive(h, serial) {
                    let ghost before = q.armed();
                    let (q2, ev) = q.remove_event(h, serial);
                    proof {
                        if before.contains(h.0.val) && q2.armed() != before {
                            let k = before.index_of(h.0.val);
                            before.remove_ensures(k);
                            assert forall|x: usize| q2.armed().contains(x) implies before.contains(x) by {
                                let j = choose|j: int| 0 <= j < q2.armed().len() && q2.armed()[j] == x;
                                if j < k {
                                    assert(before[j] == x);
                                } else {
                                    assert(before[j + 1] == x);
                                }
                            }
                        }
                    }
                    q = q2;
                    match ev {
                        Some(e) => garbage.push(e),
                        None => {},
                    }
                }
            }
            i = i + 1;
        }
        (q, garbage)
    }

    /// An empty queue, holding only its head.
    pub fn new() -> (q: EventQueue)
        ensures
            q.armed() == Seq::<usize>::empty(),
            q.firing() is None,
            q.insertion_point() == q.head(),
            q.live() == 0,
            forall|i: usize| q.allocated(i) <==> i == q.head(),
    {
        let mut events: HandleTable<EventNode> = HandleTable::new();
        let owner = Rc::new(OwnerToken);
        let head = events.push(EventNode { event: None, next: None, prev: None, serial: 0, owner });
        let head = EventHandle(head);
        proof {
            assert(events.slots().len() == 1);
        }
        EventQueue {
            events,
            head,
            tail: head,
            insertion_point: head,
            currently_firing: None,
            next_serial: 1,
            queue: Ghost(Seq::empty()),
            allocs: Ghost(Set::empty().insert(head.0.val)),
        }
    }

    /// Allocates an unarmed node with no event, owned through `owner`; returns its
    /// handle and serial number. Fails, changing nothing, only when the table is full.
    pub fn allocate(self, owner: Rc<OwnerToken>) -> (r: (EventQueue, Option<(EventHandle, u64)>))
        ensures
            r.0.armed() == self.armed(),
            r.0.head() == self.head(),
            r.0.insertion_point() == self.insertion_point(),
            r.0.firing() == self.firing(),
            r.1 is Some <==> (self.live() + 1 < usize::MAX && self.slot_count() < usize::MAX),
            match r.1 {
                Some((h, serial)) => {
                    &&& !self.allocated(h.0.val)
                    &&& r.0.valid(h, serial)
                    &&& r.0.payload(h.0.val) is None
                    &&& r.0.live() == self.live() + 1
                    &&& r.0.nodes_agree_except(&self, h.0.val)
                },
                None => r.0 == self,
            },
    {
        proof {
            use_type_invariant(&self);
        }
        if self.events.len() < usize::MAX && self.events.capacity() < usize::MAX {
            let EventQueue { mut events, head, tail, insertion_point, currently_firing, next_serial, queue, allocs } = self;
            let serial = next_serial;
            let next_serial = if next_serial < u64::MAX { next_serial + 1 } else { next_serial };
            let ghost old_events = events;
            let h = events.push(EventNode { event: None, next: None, prev: None, serial, owner });
            proof {
                assert(allocs@.contains(head.0.val));
                assert(allocs@.remove(head.0.val).len() == allocs@.len() - 1);
                assert(!old_events.occupied(h.val as int));
                assert(!queue@.contains(h.val)) by {
                    if queue@.contains(h.val) {
                        let k = choose|k: int| 0 <= k < queue@.len() && queue@[k] == h.val;
                        assert(old_events.occupied(queue@[k] as int));
                    }
                }
                assert forall|i: usize| i != h.val implies
                    (#[trigger] events.occupied(i as int) == old_events.occupied(i as int))
                    && (old_events.occupied(i as int) ==> events.slots()[i as int] == old_events.slots()[i as int]) by {
                    if (i as int) < old_events.slots().len() {
                    }
                }
            }
            let q = EventQueue {
                events,
                head,
                tail,
                insertion_point,
                currently_firing,
                next_serial,
                queue,
                allocs: Ghost(allocs@.insert(h.val)),
            };
            proof {
                assert forall|i: usize| #[trigger] q.allocs@.contains(i) <==> q.events.occupied(i as int) by {
                    if i != h.val {
                        assert(events.occupied(i as int) == old_events.occupied(i as int));
                    }
                }
            }
            (q, Some((EventHandle(h), serial)))
        } else {
            (self, None)
        }
    }

    #[verifier::type_invariant]
    closed spec fn wf(self) -> bool {
        let q = self.queue@;
        let h = self.head.0.val;
        &&& self.events.wf()
        &&& self.events.occupied(h as int)
        &&& self.node(h).prev is None
        &&& self.allocs@.finite()
        &&& self.events.active() == self.allocs@.len()
        &&& forall|i: usize| #[trigger] self.allocs@.contains(i) <==> self.events.occupied(i as int)
        &&& list_ok(self.nexts(), self.prevs(), h, q)
        &&& forall|i: int| 0 <= i < q.len() ==> self.events.occupied(#[trigger] q[i] as int)
        &&& self.tail.0.val == (if q.len() == 0 { h } else { q.last() })
        &&& (self.insertion_point.0.val == h || q.contains(self.insertion_point.0.val))
        &&& forall|i: usize|
            #[trigger] self.events.occupied(i as int) && i != h && !q.contains(i) ==> {
                &&& self.node(i).prev is None
                &&& self.node(i).next is None
            }
        &&& (self.currently_firing matches Some(c) ==> {
            &&& q.len() > 0
            &&& q[0] == c.0.val
            &&& self.insertion_point.0.val != h
        })
    }
}

/// During a turn, the events that the firing event arms depth-first run right
/// after it, in the order in which it armed them, ahead of everything armed
/// before. Here `armed` is the queue when the turn begins: the firing event is its
/// first entry and the insertion point; each depth-first arm inserts after the
/// insertion point and moves it to the armed event (`arm_depth_first`), and the
/// turn ends by dropping the first entry (`end_turn`).
pub proof fn law_depth_first_runs_next(armed: Seq<usize>, h1: usize, h2: usize)
    requires
        armed.len() > 0,
        armed.no_duplicates(),
        !armed.contains(h1),
        !armed.contains(h2),
        h1 != h2,
    ensures
        ({
            let first = armed.insert(armed.index_of(armed[0]) + 1, h1);
            let second = first.insert(first.index_of(h1) + 1, h2);
            second.drop_first() == seq![h1, h2] + armed.drop_first()
        }),
{
    armed.index_of_first_ensures(armed[0]);
    assert(armed.index_of(armed[0]) == 0) by {
        if armed.index_of(armed[0]) != 0 {
            assert(armed[armed.index_of(armed[0])] == armed[0]);
        }
    }
    let first = armed.insert(1, h1);
    assert(first[1] == h1);
    assert(first.index_of(h1) == 1) by {
        first.index_of_first_ensures(h1);
        let k = first.index_of(h1);
        assert(first.contains(h1));
        if k != 1 {
            assert(first[k] == h1);
            if k == 0 {
                assert(first[0] == armed[0]);
            } else {
                assert(first[k] == armed[k - 1]);
                assert(armed.contains(h1));
            }
        }
    }
    let second = first.insert(2, h2);
    assert(second.drop_first() =~= seq![h1, h2] + armed.drop_first());
}

/// Outside a turn, an event armed depth-first runs before everything already
/// armed: the insertion point is the head (`insertion_index() == -1`), so
/// `arm_depth_first` puts it first.
pub proof fn law_depth_first_outside_turn_runs_first(armed: Seq<usize>, h: usize)
    ensures
        armed.insert(-1 + 1, h) == seq![h] + armed,
{
    assert(armed.insert(0, h) =~= seq![h] + armed);
}

/// An event armed breadth-first runs after everything already armed, whether or not
/// a turn is under way: `arm_breadth_first` appends, and ending the turn only
/// drops the front.
pub proof fn law_breadth_first_runs_last(armed: Seq<usize>, h: usize)
    requires
        armed.len() > 0,
    ensures
        armed.push(h).drop_first() == armed.drop_first().push(h),
        armed.push(h).last() == h,
{
    assert(armed.push(h).drop_first() =~= armed.drop_first().push(h));
}

} // verus!
