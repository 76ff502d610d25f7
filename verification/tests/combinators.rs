use coop_executor::chain::chain;
use coop_executor::context::{Context, Interest, Waker};
use coop_executor::join::join_all;
use coop_executor::leaf::Leaf;
use coop_executor::poll::{Fault, Poll, TaskError};
use coop_executor::unit::TaskUnit;
use std::cell::Cell;
use std::rc::Rc;

fn cx_at(now: u64) -> Context {
    Context::new(Waker::for_task(0), now)
}

#[test]
fn join_of_nothing_resolves_at_once() {
    let mut join = join_all(Vec::<Leaf<u64>>::new());
    assert_eq!(join.len(), 0);
    assert_eq!(join.completed(), 0);
    let mut cx = cx_at(0);
    assert_eq!(join.poll(&mut cx), Poll::Ready(Ok(vec![])));
    assert_eq!(cx.interest(), Interest::none());
    assert!(join.is_finished());
}

#[test]
fn join_keeps_the_order_of_its_children() {
    let mut join = join_all(vec![Leaf::after(1000, 10u64), Leaf::after(2000, 20u64)]);
    assert_eq!(join.len(), 2);
    let mut cx = cx_at(0);
    assert_eq!(join.poll(&mut cx), Poll::Pending);
    assert_eq!(cx.interest(), Interest { wake: false, alarm: Some(1000) });
    assert_eq!(join.completed(), 0);

    let mut cx = cx_at(1000);
    assert_eq!(join.poll(&mut cx), Poll::Pending);
    assert_eq!(cx.interest(), Interest { wake: false, alarm: Some(2000) });
    assert_eq!(join.completed(), 1);

    let mut cx = cx_at(1999);
    assert_eq!(join.poll(&mut cx), Poll::Pending);
    assert_eq!(join.completed(), 1);

    let mut cx = cx_at(2000);
    assert_eq!(join.poll(&mut cx), Poll::Ready(Ok(vec![10, 20])));
    assert_eq!(cx.interest(), Interest::none());
    assert!(join.is_finished());
}

#[test]
fn join_keeps_the_order_when_the_later_child_completes_first() {
    let mut join = join_all(vec![Leaf::after(2000, 10u64), Leaf::after(1000, 20u64)]);
    let mut cx = cx_at(0);
    assert_eq!(join.poll(&mut cx), Poll::Pending);
    assert_eq!(cx.interest(), Interest { wake: false, alarm: Some(1000) });
    let mut cx = cx_at(1000);
    assert_eq!(join.poll(&mut cx), Poll::Pending);
    assert_eq!(join.completed(), 1);
    assert_eq!(cx.interest(), Interest { wake: false, alarm: Some(2000) });
    let mut cx = cx_at(2000);
    assert_eq!(join.poll(&mut cx), Poll::Ready(Ok(vec![10, 20])));
}

#[test]
fn join_polled_after_ready_reports_double_poll() {
    let mut join = join_all(vec![Leaf::ready(1u64)]);
    let mut cx = cx_at(0);
    assert_eq!(join.poll(&mut cx), Poll::Ready(Ok(vec![1])));
    assert_eq!(join.poll(&mut cx), Poll::Ready(Err(TaskError::DoublePollAfterReady)));
}

#[test]
fn join_fails_with_its_child_and_does_not_wait() {
    let mut join = join_all(vec![
        Leaf::after(0, 1u64),
        Leaf::failing(500, Fault { code: 9 }),
        Leaf::after(9000, 3u64),
    ]);
    let mut cx = cx_at(0);
    assert_eq!(join.poll(&mut cx), Poll::Pending);
    assert_eq!(join.completed(), 1);
    let mut cx = cx_at(500);
    assert_eq!(
        join.poll(&mut cx),
        Poll::Ready(Err(TaskError::TaskFailure(Fault { code: 9 })))
    );
    assert_eq!(cx.interest(), Interest::none());
    assert!(join.is_finished());
    assert_eq!(join.poll(&mut cx), Poll::Ready(Err(TaskError::DoublePollAfterReady)));
}

#[test]
fn join_reports_the_first_failure_in_the_order_of_the_children() {
    let mut join: coop_executor::join::JoinAll<Leaf<u64>> = join_all(vec![
        Leaf::failing(0, Fault { code: 1 }),
        Leaf::failing(0, Fault { code: 2 }),
    ]);
    let mut cx = cx_at(0);
    assert_eq!(
        join.poll(&mut cx),
        Poll::Ready(Err(TaskError::TaskFailure(Fault { code: 1 })))
    );
}

#[test]
fn join_of_a_finished_child_reports_the_double_poll() {
    let mut spent = Leaf::ready(1u64);
    let mut cx = cx_at(0);
    assert_eq!(spent.poll(&mut cx), Poll::Ready(Ok(1)));
    let mut join = join_all(vec![spent]);
    assert_eq!(join.poll(&mut cx), Poll::Ready(Err(TaskError::DoublePollAfterReady)));
}

#[test]
fn chain_builds_the_second_unit_from_the_first_value() {
    let mut unit = chain(Leaf::after(100, 4u64), |v: u64| Leaf::after(50, v * 10));
    let mut cx = cx_at(0);
    assert_eq!(unit.poll(&mut cx), Poll::Pending);
    assert_eq!(cx.interest(), Interest { wake: false, alarm: Some(100) });
    let mut cx = cx_at(100);
    assert_eq!(unit.poll(&mut cx), Poll::Pending);
    assert_eq!(cx.interest(), Interest { wake: false, alarm: Some(150) });
    let mut cx = cx_at(150);
    assert_eq!(unit.poll(&mut cx), Poll::Ready(Ok(40)));
    assert_eq!(unit.poll(&mut cx), Poll::Ready(Err(TaskError::DoublePollAfterReady)));
}

#[test]
fn chain_completes_in_one_poll_when_both_units_are_ready() {
    let mut unit = chain(Leaf::ready(1u64), |v: u64| Leaf::ready(v + 1));
    let mut cx = cx_at(0);
    assert_eq!(unit.poll(&mut cx), Poll::Ready(Ok(2)));
}

#[test]
fn chain_does_not_invoke_the_continuation_before_the_first_value() {
    let calls = Rc::new(Cell::new(0u32));
    let seen = calls.clone();
    let mut unit = chain(Leaf::after(100, 4u64), move |v: u64| {
        seen.set(seen.get() + 1);
        Leaf::ready(v)
    });
    let mut cx = cx_at(0);
    assert_eq!(unit.poll(&mut cx), Poll::Pending);
    assert_eq!(calls.get(), 0);
    let mut cx = cx_at(99);
    assert_eq!(unit.poll(&mut cx), Poll::Pending);
    assert_eq!(calls.get(), 0);
    let mut cx = cx_at(100);
    assert_eq!(unit.poll(&mut cx), Poll::Ready(Ok(4)));
    assert_eq!(calls.get(), 1);
}

#[test]
fn chain_cancelled_in_its_first_phase_never_invokes_the_continuation() {
    let calls = Rc::new(Cell::new(0u32));
    let seen = calls.clone();
    let mut unit = chain(Leaf::after(100, 4u64), move |v: u64| {
        seen.set(seen.get() + 1);
        Leaf::ready(v)
    });
    let mut cx = cx_at(0);
    assert_eq!(unit.poll(&mut cx), Poll::Pending);
    let continuation = unit.cancel();
    assert!(continuation.is_some());
    assert_eq!(calls.get(), 0);
    drop(continuation);
    assert_eq!(calls.get(), 0);
}

#[test]
fn chain_cancelled_in_its_second_phase_has_no_continuation_left() {
    let mut unit = chain(Leaf::ready(4u64), |v: u64| Leaf::after(10, v));
    let mut cx = cx_at(0);
    assert_eq!(unit.poll(&mut cx), Poll::Pending);
    assert!(unit.cancel().is_none());
}

#[test]
fn chain_drops_the_continuation_when_the_first_unit_fails() {
    let calls = Rc::new(Cell::new(0u32));
    let seen = calls.clone();
    let mut unit = chain(Leaf::<u64>::failing(0, Fault { code: 5 }), move |v: u64| {
        seen.set(seen.get() + 1);
        Leaf::ready(v)
    });
    let mut cx = cx_at(0);
    assert_eq!(
        unit.poll(&mut cx),
        Poll::Ready(Err(TaskError::TaskFailure(Fault { code: 5 })))
    );
    assert_eq!(calls.get(), 0);
    assert_eq!(unit.poll(&mut cx), Poll::Ready(Err(TaskError::DoublePollAfterReady)));
    assert!(unit.cancel().is_none());
}

#[test]
fn chain_hands_on_the_failure_of_the_second_unit() {
    let mut unit = chain(Leaf::ready(4u64), |_v: u64| {
        Leaf::<u64>::failing(0, Fault { code: 8 })
    });
    let mut cx = cx_at(0);
    assert_eq!(
        unit.poll(&mut cx),
        Poll::Ready(Err(TaskError::TaskFailure(Fault { code: 8 })))
    );
}

#[test]
fn join_that_fails_after_a_suspended_child_asks_nothing() {
    let mut join = join_all(vec![
        Leaf::after(900, 1u64),
        Leaf::failing(0, Fault { code: 4 }),
    ]);
    let mut cx = cx_at(0);
    cx.wake_at(77);
    assert_eq!(
        join.poll(&mut cx),
        Poll::Ready(Err(TaskError::TaskFailure(Fault { code: 4 })))
    );
    assert_eq!(cx.interest(), Interest { wake: false, alarm: Some(77) });
}

#[test]
fn chain_that_resolves_asks_nothing() {
    let mut unit = chain(Leaf::after(100, 4u64), |v: u64| Leaf::after(50, v));
    let mut cx = cx_at(0);
    assert_eq!(unit.poll(&mut cx), Poll::Pending);
    let mut cx = cx_at(100);
    assert_eq!(unit.poll(&mut cx), Poll::Pending);
    let mut cx = cx_at(150);
    assert_eq!(unit.poll(&mut cx), Poll::Ready(Ok(4)));
    assert_eq!(cx.interest(), Interest::none());
    assert_eq!(unit.poll(&mut cx), Poll::Ready(Err(TaskError::DoublePollAfterReady)));
    assert_eq!(cx.interest(), Interest::none());
}
