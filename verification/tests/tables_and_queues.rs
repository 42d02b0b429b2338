use gj::handle_table::{Handle, HandleTable};
use gj::private::event_queue::EventQueue;
use gj::private::{Event, EventHandle, OwnerToken};
use std::cell::RefCell;
use std::rc::Rc;

#[test]
fn handle_table_fills_the_lowest_empty_slot() {
    let mut table: HandleTable<&str> = HandleTable::new();
    let a = table.push("a");
    let b = table.push("b");
    let c = table.push("c");
    assert_eq!((a.val, b.val, c.val), (0, 1, 2));
    assert_eq!(table.len(), 3);
    assert_eq!(table.remove(c), Some("c"));
    assert_eq!(table.remove(a), Some("a"));
    assert_eq!(table.len(), 1);
    assert_eq!(table.push("d"), Handle { val: 0 });
    assert_eq!(table.push("e"), Handle { val: 2 });
    assert_eq!(table.push("f"), Handle { val: 3 });
    assert_eq!(*table.get(Handle { val: 2 }), "e");
}

#[test]
fn handle_table_reuses_a_removed_handle_when_full() {
    let mut table: HandleTable<u32> = HandleTable::new();
    for i in 0..4 {
        table.push(i);
    }
    assert_eq!(table.remove(Handle { val: 2 }), Some(2));
    assert_eq!(table.push(9), Handle { val: 2 });
    assert_eq!(*table.get(Handle { val: 2 }), 9);
}

struct Record {
    log: Rc<RefCell<Vec<&'static str>>>,
    name: &'static str,
}

impl Event for Record {
    fn fire(&mut self) {
        self.log.borrow_mut().push(self.name);
    }
}

fn add(q: EventQueue, owner: &Rc<OwnerToken>, log: &Rc<RefCell<Vec<&'static str>>>, name: &'static str) -> (EventQueue, (EventHandle, u64)) {
    let (q, allocated) = q.allocate(owner.clone());
    let (h, serial) = allocated.unwrap();
    let q = q.set_event(h, serial, Box::new(Record { log: log.clone(), name }));
    (q, (h, serial))
}

fn run_turn(q: EventQueue) -> (EventQueue, bool) {
    let (q, started) = q.begin_turn();
    match started {
        None => (q, false),
        Some((_, event)) => {
            if let Some(mut e) = event {
                e.fire();
            }
            (q.end_turn(), true)
        }
    }
}

#[test]
fn depth_first_events_run_next_in_arm_order() {
    let log = Rc::new(RefCell::new(Vec::new()));
    let owner = Rc::new(OwnerToken);
    let q = EventQueue::new();
    let (q, a) = add(q, &owner, &log, "a");
    let (q, b) = add(q, &owner, &log, "b");
    let (q, c) = add(q, &owner, &log, "c");
    let (q, d) = add(q, &owner, &log, "d");
    let q = q.arm_breadth_first(a.0, a.1);
    let q = q.arm_breadth_first(b.0, b.1);

    // The turn that fires `a` arms `c` and `d` depth-first.
    let (q, started) = q.begin_turn();
    let (_, event) = started.unwrap();
    event.unwrap().fire();
    let q = q.arm_depth_first(c.0, c.1);
    let q = q.arm_depth_first(d.0, d.1);
    let mut q = q.end_turn();

    loop {
        let (next, ran) = run_turn(q);
        q = next;
        if !ran {
            break;
        }
    }
    assert_eq!(*log.borrow(), vec!["a", "c", "d", "b"]);
}

#[test]
fn depth_first_outside_a_turn_goes_first_and_breadth_first_goes_last() {
    let log = Rc::new(RefCell::new(Vec::new()));
    let owner = Rc::new(OwnerToken);
    let q = EventQueue::new();
    let (q, a) = add(q, &owner, &log, "a");
    let (q, b) = add(q, &owner, &log, "b");
    let (q, c) = add(q, &owner, &log, "c");
    let q = q.arm_breadth_first(a.0, a.1);
    let q = q.arm_breadth_first(b.0, b.1);
    let mut q = q.arm_depth_first(c.0, c.1);
    loop {
        let (next, ran) = run_turn(q);
        q = next;
        if !ran {
            break;
        }
    }
    assert_eq!(*log.borrow(), vec!["c", "a", "b"]);
}

#[test]
fn events_whose_owner_is_gone_are_swept_before_they_fire() {
    let log = Rc::new(RefCell::new(Vec::new()));
    let kept = Rc::new(OwnerToken);
    let dropped = Rc::new(OwnerToken);
    let q = EventQueue::new();
    let (q, a) = add(q, &dropped, &log, "a");
    let (q, b) = add(q, &kept, &log, "b");
    let q = q.arm_breadth_first(a.0, a.1);
    let q = q.arm_breadth_first(b.0, b.1);
    drop(dropped);
    let (q, garbage) = q.sweep();
    assert_eq!(garbage.len(), 1);
    assert_eq!(q.live_count(), 1);
    let (q, ran) = run_turn(q);
    assert!(ran);
    let (_, ran) = run_turn(q);
    assert!(!ran);
    assert_eq!(*log.borrow(), vec!["b"]);
}

#[test]
fn handle_table_removing_an_empty_slot_changes_nothing() {
    let mut table: HandleTable<&str> = HandleTable::new();
    let a = table.push("a");
    let b = table.push("b");
    assert_eq!(table.remove(b), Some("b"));
    assert_eq!(table.len(), 1);
    assert_eq!(table.remove(b), None);
    assert_eq!(table.len(), 1);
    assert_eq!(*table.get(a), "a");
    assert_eq!(table.push("c"), b);
}
