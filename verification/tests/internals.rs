use gj::private::promise_node::{ChainState, ExclusiveJoinSide, ExclusiveJoinState, Immediate, OnOk, Transform};
use gj::Promise;
use gj::private::{NodeBox, OnReadyEvent, PromiseAndFulfillerHub};

#[test]
fn hub_keeps_the_first_result() {
    let mut hub: PromiseAndFulfillerHub<u32, &str> = PromiseAndFulfillerHub::new();
    assert!(hub.result.is_none());
    hub.fulfill(3);
    assert_eq!(hub.result, Some(Ok(3)));
    hub.reject("late");
    assert_eq!(hub.result, Some(Ok(3)));
    hub.resolve(Ok(4));
    assert_eq!(hub.result, Some(Ok(3)));
}

#[test]
fn hub_rejection_sticks_too() {
    let mut hub: PromiseAndFulfillerHub<u32, &str> = PromiseAndFulfillerHub::new();
    hub.reject("no");
    hub.fulfill(1);
    assert_eq!(hub.result, Some(Err("no")));
}

#[test]
fn on_ready_event_remembers_a_result_that_came_first() {
    let mut e = OnReadyEvent::Empty;
    assert!(e.is_empty());
    e.arm();
    assert!(e.is_already_ready());
    e.arm();
    assert!(e.is_already_ready());
}

#[test]
fn exclusive_join_keeps_the_side_that_finished_first() {
    let mut state: ExclusiveJoinState<u8, ()> = ExclusiveJoinState {
        on_ready_event: OnReadyEvent::Empty,
        left: Some(NodeBox { node: Box::new(Immediate::new(Ok(1))) }),
        right: Some(NodeBox { node: Box::new(Immediate::new(Ok(2))) }),
    };
    state.decide(ExclusiveJoinSide::Right);
    assert!(state.left.is_none());
    assert!(state.on_ready_event.is_already_ready());
    let right = state.right.take().unwrap();
    assert_eq!(right.get(), Some(Ok(2)));

    // Once one side has won, a later decision changes nothing.
    let mut state: ExclusiveJoinState<u8, ()> = ExclusiveJoinState {
        on_ready_event: OnReadyEvent::Empty,
        left: Some(NodeBox { node: Box::new(Immediate::new(Ok(1))) }),
        right: None,
    };
    state.decide(ExclusiveJoinSide::Right);
    assert!(state.left.is_some());
    assert!(state.right.is_none());
    assert!(state.on_ready_event.is_empty());
}

#[test]
fn immediate_node_gives_its_result() {
    let node: NodeBox<i32, ()> = NodeBox { node: Box::new(Immediate::new(Ok(7))) };
    assert_eq!(node.get(), Some(Ok(7)));
    let failed: NodeBox<i32, &str> = NodeBox { node: Box::new(Immediate::new(Err("no"))) };
    assert_eq!(failed.get(), Some(Err("no")));
}

#[test]
fn transform_of_a_ready_node_gives_the_mapped_result() {
    let dependency: NodeBox<i32, ()> = NodeBox { node: Box::new(Immediate::new(Ok(3))) };
    let doubled: Transform<i32, (), (), i32, _> =
        Transform::new(dependency, OnOk { f: |v: i32| -> Result<i32, ()> { Ok(v * 2) } });
    let node: NodeBox<i32, ()> = NodeBox { node: Box::new(doubled) };
    assert_eq!(node.get(), Some(Ok(6)));
}

#[test]
fn a_chain_goes_on_with_the_promise_its_first_step_gave() {
    let inner: NodeBox<Promise<i32, ()>, ()> = NodeBox { node: Box::new(Immediate::new(Ok(Promise::ok(5)))) };
    let (state, handed, slot) = ChainState::Step1(inner, None).advance(false);
    assert!(handed.is_none());
    assert!(slot.is_none());
    match state {
        ChainState::Step2(node) => assert_eq!(node.get(), Some(Ok(5))),
        _ => panic!("the chain should be in its second step"),
    }
}

#[test]
fn a_chain_with_a_live_holder_hands_its_promise_up() {
    let inner: NodeBox<Promise<i32, &str>, &str> = NodeBox { node: Box::new(Immediate::new(Err("no"))) };
    let (state, handed, _slot) = ChainState::Step1(inner, None).advance(true);
    assert!(matches!(state, ChainState::Step3));
    assert_eq!(handed.unwrap().get(), Some(Err("no")));
}
