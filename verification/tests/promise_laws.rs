use gj::{ClosedEventPort, EventLoop, EventPort, FulfillerDropped, Promise};

#[derive(Debug, PartialEq, Eq, Clone)]
enum Failure {
    Dropped,
    Port,
    Bad(u32),
    Wide(u64),
}

impl FulfillerDropped for Failure {
    fn fulfiller_dropped() -> Failure {
        Failure::Dropped
    }
}

#[test]
fn map_passes_errors_through() {
    EventLoop::top_level(|wait_scope| {
        let p: Promise<u32, Failure> = Promise::err(Failure::Bad(3));
        let mapped = p.map(|v| Ok(v + 1));
        assert_eq!(mapped.wait(wait_scope, &mut ClosedEventPort(Failure::Port)), Err(Failure::Bad(3)));
    });
}

#[test]
fn map_of_fulfilled_applies_the_function() {
    EventLoop::top_level(|wait_scope| {
        let p: Promise<u32, Failure> = Promise::ok(4);
        assert_eq!(p.map(|v| Ok(v * 10)).wait(wait_scope, &mut ClosedEventPort(Failure::Port)), Ok(40));
    });
}

#[test]
fn and_then_passes_errors_without_calling() {
    EventLoop::top_level(|wait_scope| {
        let event_loop = wait_scope.event_loop();
        let p: Promise<u32, Failure> = Promise::err(Failure::Bad(8));
        let chained = p.and_then(&event_loop, |_| -> Promise<u32, Failure> { panic!("must not be called") });
        assert_eq!(chained.wait(wait_scope, &mut ClosedEventPort(Failure::Port)), Err(Failure::Bad(8)));
    });
}

#[test]
fn and_then_of_fulfilled_resolves_as_the_returned_promise() {
    EventLoop::top_level(|wait_scope| {
        let event_loop = wait_scope.event_loop();
        let p: Promise<u32, Failure> = Promise::ok(2);
        let chained: Promise<u32, Failure> = p.and_then(&event_loop, |v| Promise::err(Failure::Bad(v)));
        assert_eq!(chained.wait(wait_scope, &mut ClosedEventPort(Failure::Port)), Err(Failure::Bad(2)));
    });
}

#[test]
fn then_else_sees_errors_too() {
    EventLoop::top_level(|wait_scope| {
        let event_loop = wait_scope.event_loop();
        let p: Promise<u32, Failure> = Promise::err(Failure::Bad(5));
        let handled = p.then_else(&event_loop, |r| match r {
            Ok(v) => Promise::<u32, Failure>::ok(v),
            Err(Failure::Bad(n)) => Promise::ok(n + 100),
            Err(e) => Promise::err(e),
        });
        assert_eq!(handled.wait(wait_scope, &mut ClosedEventPort(Failure::Port)), Ok(105));
    });
}

#[test]
fn map_else_and_map_err() {
    EventLoop::top_level(|wait_scope| {
        let p: Promise<u32, Failure> = Promise::err(Failure::Bad(1));
        let recovered = p.map_else(|r| match r {
            Ok(v) => Ok::<u32, Failure>(v),
            Err(_) => Ok(0),
        });
        assert_eq!(recovered.wait(wait_scope, &mut ClosedEventPort(Failure::Port)), Ok(0));

        let q: Promise<u32, u32> = Promise::err(6);
        let renamed = q.map_err(|e| Failure::Bad(e * 2));
        assert_eq!(renamed.wait(wait_scope, &mut ClosedEventPort(Failure::Port)), Err(Failure::Bad(12)));
    });
}

impl From<u32> for Failure {
    fn from(e: u32) -> Failure {
        Failure::Wide(e as u64)
    }
}

#[derive(Debug)]
struct Narrow(u32);

impl From<Narrow> for Failure {
    fn from(e: Narrow) -> Failure {
        Failure::Wide(e.0 as u64 + 1)
    }
}

#[test]
fn lift_converts_errors_with_into() {
    EventLoop::top_level(|wait_scope| {
        let p: Promise<(), Narrow> = Promise::err(Narrow(41));
        let lifted: Promise<(), Failure> = p.lift();
        assert_eq!(lifted.wait(wait_scope, &mut ClosedEventPort(Failure::Port)), Err(Failure::Wide(42)));
        let q: Promise<u8, Narrow> = Promise::ok(7);
        assert_eq!(q.lift::<Failure>().wait(wait_scope, &mut ClosedEventPort(Failure::Port)), Ok(7));
    });
}

#[test]
fn all_of_none_is_the_empty_vector() {
    EventLoop::top_level(|wait_scope| {
        let event_loop = wait_scope.event_loop();
        let r = Promise::<u8, Failure>::all(&event_loop, Vec::new()).wait(wait_scope, &mut ClosedEventPort(Failure::Port));
        assert_eq!(r, Ok(Vec::new()));
    });
}

#[test]
fn all_of_fulfilled_keeps_the_order() {
    EventLoop::top_level(|wait_scope| {
        let event_loop = wait_scope.event_loop();
        let (late, fulfiller) = Promise::<u8, Failure>::and_fulfiller();
        let promises = vec![late, Promise::ok(2), Promise::ok(3)];
        let all = Promise::all(&event_loop, promises);
        fulfiller.fulfill(1);
        assert_eq!(all.wait(wait_scope, &mut ClosedEventPort(Failure::Port)), Ok(vec![1, 2, 3]));
    });
}

#[test]
fn all_fails_with_an_error_of_any_promise() {
    EventLoop::top_level(|wait_scope| {
        let event_loop = wait_scope.event_loop();
        let promises: Vec<Promise<u8, Failure>> = vec![Promise::ok(1), Promise::err(Failure::Bad(9)), Promise::never_done()];
        let all = Promise::all(&event_loop, promises);
        assert_eq!(all.wait(wait_scope, &mut ClosedEventPort(Failure::Port)), Err(Failure::Bad(9)));
    });
}

#[test]
fn exclusive_join_with_never_done_is_the_other_promise() {
    EventLoop::top_level(|wait_scope| {
        let event_loop = wait_scope.event_loop();
        let joined = Promise::<u8, Failure>::never_done().exclusive_join(&event_loop, Promise::ok(4));
        assert_eq!(joined.wait(wait_scope, &mut ClosedEventPort(Failure::Port)), Ok(4));
    });
}

#[test]
fn attach_and_eagerly_evaluate_keep_the_result() {
    EventLoop::top_level(|wait_scope| {
        let event_loop = wait_scope.event_loop();
        let p: Promise<u8, Failure> = Promise::ok(11);
        let kept = p.attach(String::from("held")).eagerly_evaluate(&event_loop);
        assert_eq!(kept.wait(wait_scope, &mut ClosedEventPort(Failure::Port)), Ok(11));
    });
}

#[test]
fn fork_branches_get_clones_of_the_result() {
    EventLoop::top_level(|wait_scope| {
        let event_loop = wait_scope.event_loop();
        let p: Promise<String, Failure> = Promise::ok(String::from("shared"));
        let mut fork = p.fork(&event_loop);
        let first = fork.add_branch();
        let second = fork.add_branch();
        let mut port = ClosedEventPort(Failure::Port);
        assert_eq!(first.wait(wait_scope, &mut port), Ok(String::from("shared")));
        assert_eq!(second.wait(wait_scope, &mut port), Ok(String::from("shared")));
        let late = fork.add_branch();
        assert_eq!(late.wait(wait_scope, &mut port), Ok(String::from("shared")));
    });
}

#[test]
fn never_done_waits_until_the_port_gives_up() {
    EventLoop::top_level(|wait_scope| {
        let p: Promise<u8, Failure> = Promise::never_done();
        assert_eq!(p.wait(wait_scope, &mut ClosedEventPort(Failure::Port)), Err(Failure::Port));
    });
}

#[test]
fn a_fulfiller_resolves_only_once() {
    EventLoop::top_level(|wait_scope| {
        let (p, fulfiller) = Promise::<u8, Failure>::and_fulfiller();
        fulfiller.resolve(Ok(3));
        assert_eq!(p.wait(wait_scope, &mut ClosedEventPort(Failure::Port)), Ok(3));
    });
}

#[test]
fn top_level_returns_what_main_returns() {
    let r = EventLoop::top_level(|_wait_scope| 17u32);
    assert_eq!(r, 17);
}

#[test]
fn closed_event_port_returns_its_error() {
    let mut port = ClosedEventPort(Failure::Bad(1));
    assert_eq!(port.wait(), Err(Failure::Bad(1)));
    assert_eq!(port.wait(), Err(Failure::Bad(1)));
}

#[test]
fn std_io_error_reports_a_dropped_fulfiller() {
    let e: std::io::Error = FulfillerDropped::fulfiller_dropped();
    assert_eq!(e.to_string(), "Promise fulfiller was dropped.");
}

#[test]
fn cancellation_reaches_events_armed_in_the_same_turn() {
    EventLoop::top_level(|wait_scope| {
        let event_loop = wait_scope.event_loop();
        let (p, fulfiller) = Promise::<(), Failure>::and_fulfiller();
        let doomed: Promise<(), Failure> = p.map(|()| panic!("a dropped promise must not run"));
        let held = Promise::all(&event_loop, vec![doomed]).eagerly_evaluate(&event_loop);
        let trigger: Promise<(), Failure> = Promise::ok(()).and_then(&event_loop, move |()| {
            drop(held);
            fulfiller.fulfill(());
            Promise::ok(())
        });
        assert_eq!(trigger.wait(wait_scope, &mut ClosedEventPort(Failure::Port)), Ok(()));
    });
}
