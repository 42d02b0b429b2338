use gj::{ClosedEventPort, EventLoop, EventPort, Promise};
use std::cell::Cell;
use std::rc::Rc;

#[test]
fn test_eval_void() {
    EventLoop::top_level(|wait_scope| {
        let done = Rc::new(Cell::new(false));
        let done1 = done.clone();
        let promise: Promise<(), ()> = Promise::ok(()).map(move |()| {
            done1.clone().set(true);
            Ok(())
        });
        assert_eq!(done.get(), false);
        promise.wait(wait_scope, &mut ClosedEventPort(())).unwrap();
        assert_eq!(done.get(), true);
    });
}

#[test]
fn test_eval_int() {
    EventLoop::top_level(|wait_scope| {
        let promise: Promise<u64, ()> = Promise::ok(19u64).map(|x| {
            assert_eq!(x, 19);
            Ok(x + 2)
        });
        let value = promise.wait(wait_scope, &mut ClosedEventPort(())).unwrap();
        assert_eq!(value, 21);
    });
}

#[test]
fn test_fulfiller() {
    EventLoop::top_level(|wait_scope| {
        let (promise, fulfiller) = Promise::<u32, ()>::and_fulfiller();
        let p1 = promise.map(|x| {
            assert_eq!(x, 10);
            Ok(x + 1)
        });

        fulfiller.fulfill(10);
        let value = p1.wait(wait_scope, &mut ClosedEventPort(())).unwrap();
        assert_eq!(value, 11);
    });
}

#[test]
fn test_chain() {
    EventLoop::top_level(|wait_scope| {
        let event_loop = wait_scope.event_loop();
        let promise: Promise<i32, ()> = Promise::ok(()).map(|()| Ok(123));
        let promise2: Promise<i32, ()> = Promise::ok(()).map(|()| Ok(321));

        let _promise3 = promise.and_then(&event_loop, move |i| Promise::ok(promise2.map(move |j| Ok(i + j))));
    });
}

/// An event port that counts its waits and fails each one.
struct CountingPort {
    calls: u32,
}

impl EventPort<()> for CountingPort {
    fn wait(&mut self) -> Result<(), ()> {
        self.calls += 1;
        Err(())
    }
}

#[test]
fn waiting_on_a_fulfilled_promise_gives_its_value_without_the_port() {
    EventLoop::top_level(|wait_scope| {
        let mut port = CountingPort { calls: 0 };
        let r = Promise::<u32, ()>::ok(5).wait(wait_scope, &mut port);
        assert_eq!(r, Ok(5));
        assert_eq!(port.calls, 0);
    });
}

#[test]
fn waiting_on_a_rejected_promise_gives_its_error_without_the_port() {
    EventLoop::top_level(|wait_scope| {
        let mut port = CountingPort { calls: 0 };
        let r = Promise::<u32, ()>::err(()).wait(wait_scope, &mut port);
        assert_eq!(r, Err(()));
        assert_eq!(port.calls, 0);
    });
}
