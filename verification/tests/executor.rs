use coop_executor::chain::chain;
use coop_executor::context::{Context, Interest, Waker};
use coop_executor::delay::Delay;
use coop_executor::executor::{block_on, Executor, Step, Turn};
use coop_executor::join::{join_all, JoinAll};
use coop_executor::leaf::Leaf;
use coop_executor::poll::{Fault, Outcome, Poll, TaskError};
use coop_executor::unit::TaskUnit;
use coop_executor::yield_now::YieldNow;
use std::cell::{Cell, RefCell};
use std::rc::Rc;

/// Suspends without asking for anything.
struct Never;

impl TaskUnit for Never {
    type Output = u64;

    fn inv(&self) -> bool {
        true
    }

    fn finished(&self) -> bool {
        false
    }

    fn interest(&self) -> Interest {
        Interest { wake: false, alarm: None }
    }

    fn resolves(&self, _now: u64, _out: Outcome<u64>) -> bool {
        false
    }

    fn suspends(&self, _now: u64, _post: &Self) -> bool {
        true
    }

    fn poll(&mut self, _cx: &mut Context) -> Poll<Outcome<u64>> {
        Poll::Pending
    }
}

/// Completes once its gate has been opened from outside; asks for nothing
/// while it is shut. Writes its name down at every poll.
struct Gated {
    name: u64,
    open: Rc<Cell<bool>>,
    log: Rc<RefCell<Vec<u64>>>,
    done: bool,
}

impl Gated {
    fn new(name: u64, open: &Rc<Cell<bool>>, log: &Rc<RefCell<Vec<u64>>>) -> Gated {
        Gated { name, open: open.clone(), log: log.clone(), done: false }
    }
}

impl TaskUnit for Gated {
    type Output = u64;

    fn inv(&self) -> bool {
        true
    }

    fn finished(&self) -> bool {
        self.done
    }

    fn interest(&self) -> Interest {
        Interest { wake: false, alarm: None }
    }

    fn resolves(&self, _now: u64, _out: Outcome<u64>) -> bool {
        true
    }

    fn suspends(&self, _now: u64, _post: &Self) -> bool {
        true
    }

    fn poll(&mut self, _cx: &mut Context) -> Poll<Outcome<u64>> {
        self.log.borrow_mut().push(self.name);
        if self.done {
            Poll::Ready(Err(TaskError::DoublePollAfterReady))
        } else if self.open.get() {
            self.done = true;
            Poll::Ready(Ok(self.name))
        } else {
            Poll::Pending
        }
    }
}

fn shut_gate() -> (Rc<Cell<bool>>, Rc<RefCell<Vec<u64>>>) {
    (Rc::new(Cell::new(false)), Rc::new(RefCell::new(Vec::new())))
}

#[test]
fn leaf_with_zero_delay_runs_to_its_value() {
    let mut ex: Executor<Leaf<u64>> = Executor::new();
    let handle = ex.spawn(Leaf::after(0, 42));
    assert_eq!(ex.run_until(&handle), Ok(42));
    assert_eq!(ex.now(), 0);
    assert_eq!(ex.ready_len(), 0);
}

#[test]
fn new_executor_is_empty_at_time_zero() {
    let ex: Executor<Leaf<u64>> = Executor::new();
    assert_eq!(ex.now(), 0);
    assert_eq!(ex.ready_len(), 0);
    assert_eq!(ex.poll_budget(), u64::MAX);
    assert_eq!(ex.next_deadline(), None);
    assert!(!ex.any_live());
    let small: Executor<Leaf<u64>> = Executor::with_poll_budget(3);
    assert_eq!(small.poll_budget(), 3);
}

#[test]
fn spawn_hands_out_identities_in_order_and_queues_the_task() {
    let mut ex: Executor<Leaf<u64>> = Executor::new();
    let a = ex.spawn(Leaf::after(5, 1));
    let b = ex.spawn(Leaf::after(5, 2));
    assert_eq!(a.id(), 0);
    assert_eq!(b.id(), 1);
    assert_eq!(a.waker(), Waker::for_task(0));
    assert_eq!(ex.ready_len(), 2);
    assert!(ex.any_live());
}

#[test]
fn leaf_with_a_delay_completes_at_its_deadline() {
    let mut ex: Executor<Leaf<u64>> = Executor::new();
    let handle = ex.spawn(Leaf::after(500, 9));
    assert_eq!(ex.run_until(&handle), Ok(9));
    assert_eq!(ex.now(), 500);
    assert_eq!(ex.poll_budget(), u64::MAX - 2);
}

#[test]
fn join_of_two_leaves_resolves_at_the_later_deadline_in_index_order() {
    let mut ex: Executor<JoinAll<Leaf<&'static str>>> = Executor::new();
    let handle = ex.spawn(join_all(vec![
        Leaf::after(1000, "A done in 1s"),
        Leaf::after(2000, "B done in 2s"),
    ]));
    assert_eq!(ex.run_until(&handle), Ok(vec!["A done in 1s", "B done in 2s"]));
    assert_eq!(ex.now(), 2000);
}

#[test]
fn join_keeps_index_order_when_the_second_child_completes_first() {
    let mut ex: Executor<JoinAll<Leaf<&'static str>>> = Executor::new();
    let handle = ex.spawn(join_all(vec![
        Leaf::after(2000, "A done in 2s"),
        Leaf::after(1000, "B done in 1s"),
    ]));
    assert_eq!(ex.turn(), Turn::Polled(0));
    assert_eq!(ex.turn(), Turn::Waiting(1000));
    ex.advance();
    assert_eq!(ex.now(), 1000);
    assert_eq!(ex.turn(), Turn::Polled(0));
    assert_eq!(ex.take(&handle), None);
    assert_eq!(ex.turn(), Turn::Waiting(2000));
    assert_eq!(ex.run_until(&handle), Ok(vec!["A done in 2s", "B done in 1s"]));
    assert_eq!(ex.now(), 2000);
}

#[test]
fn join_of_nothing_runs_to_the_empty_sequence() {
    let mut ex: Executor<JoinAll<Leaf<u64>>> = Executor::new();
    let handle = ex.spawn(join_all(Vec::new()));
    assert_eq!(ex.run_until(&handle), Ok(vec![]));
    assert_eq!(ex.now(), 0);
    assert_eq!(ex.poll_budget(), u64::MAX - 1);
}

#[test]
fn failed_child_fails_the_join_without_waiting_for_the_rest() {
    let mut ex: Executor<JoinAll<Leaf<u64>>> = Executor::new();
    let handle = ex.spawn(join_all(vec![
        Leaf::after(10, 1),
        Leaf::failing(20, Fault { code: 7 }),
        Leaf::after(5000, 3),
    ]));
    assert_eq!(
        ex.run_until(&handle),
        Err(TaskError::TaskFailure(Fault { code: 7 }))
    );
    assert_eq!(ex.now(), 20);
    assert_eq!(ex.next_deadline(), None);
}

#[test]
fn waker_invoked_twice_queues_the_task_once() {
    let (open, log) = shut_gate();
    let mut ex: Executor<Gated> = Executor::new();
    let handle = ex.spawn(Gated::new(1, &open, &log));
    assert_eq!(ex.turn(), Turn::Polled(0));
    assert_eq!(ex.ready_len(), 0);
    ex.wake(handle.waker());
    ex.wake(handle.waker());
    assert_eq!(ex.ready_len(), 1);
    assert_eq!(ex.turn(), Turn::Polled(0));
    assert_eq!(ex.turn(), Turn::Idle);
    assert_eq!(*log.borrow(), vec![1, 1]);
}

#[test]
fn waking_a_queued_task_changes_nothing() {
    let mut ex: Executor<Leaf<u64>> = Executor::new();
    let handle = ex.spawn(Leaf::after(0, 1));
    assert_eq!(ex.ready_len(), 1);
    ex.wake(handle.waker());
    assert_eq!(ex.ready_len(), 1);
}

#[test]
fn external_wake_lets_a_deadlocked_task_complete() {
    let (open, log) = shut_gate();
    let mut ex: Executor<Gated> = Executor::new();
    let handle = ex.spawn(Gated::new(4, &open, &log));
    assert_eq!(ex.run_until(&handle), Err(TaskError::DeadlockDetected));
    assert!(ex.any_live());
    open.set(true);
    assert_eq!(ex.run_until(&handle), Err(TaskError::DeadlockDetected));
    ex.wake(handle.waker());
    assert_eq!(ex.run_until(&handle), Ok(4));
    assert_eq!(*log.borrow(), vec![4, 4]);
}

#[test]
fn task_that_never_asks_is_a_deadlock() {
    let mut ex: Executor<Never> = Executor::new();
    let handle = ex.spawn(Never);
    assert_eq!(ex.run_until(&handle), Err(TaskError::DeadlockDetected));
    assert_eq!(ex.run_all(), Err(TaskError::DeadlockDetected));
    assert!(ex.any_live());
}

#[test]
fn ready_tasks_are_polled_in_the_order_of_the_queue() {
    let (open, log) = shut_gate();
    let mut ex: Executor<Gated> = Executor::new();
    let a = ex.spawn(Gated::new(10, &open, &log));
    let b = ex.spawn(Gated::new(11, &open, &log));
    let c = ex.spawn(Gated::new(12, &open, &log));
    assert_eq!(ex.turn(), Turn::Polled(0));
    assert_eq!(ex.turn(), Turn::Polled(1));
    assert_eq!(ex.turn(), Turn::Polled(2));
    assert_eq!(ex.turn(), Turn::Idle);
    ex.wake(c.waker());
    ex.wake(a.waker());
    ex.wake(b.waker());
    ex.wake(a.waker());
    assert_eq!(ex.ready_len(), 3);
    open.set(true);
    assert_eq!(ex.run_all(), Ok(()));
    assert_eq!(*log.borrow(), vec![10, 11, 12, 12, 10, 11]);
    assert_eq!(ex.take(&a), Some(Ok(10)));
    assert_eq!(ex.take(&b), Some(Ok(11)));
    assert_eq!(ex.take(&c), Some(Ok(12)));
}

#[test]
fn wake_during_a_poll_is_seen_after_the_tasks_already_queued() {
    let mut ex: Executor<YieldNow<u64>> = Executor::new();
    let a = ex.spawn(YieldNow::new(1, 100));
    let b = ex.spawn(YieldNow::new(0, 200));
    assert_eq!(ex.turn(), Turn::Polled(0));
    assert_eq!(ex.ready_len(), 2);
    assert_eq!(ex.turn(), Turn::Polled(1));
    assert_eq!(ex.take(&b), Some(Ok(200)));
    assert_eq!(ex.take(&a), None);
    assert_eq!(ex.turn(), Turn::Polled(0));
    assert_eq!(ex.take(&a), Some(Ok(100)));
    assert_eq!(ex.turn(), Turn::Idle);
}

#[test]
fn spent_budget_cancels_the_awaited_task() {
    let mut ex: Executor<YieldNow<u64>> = Executor::with_poll_budget(3);
    let handle = ex.spawn(YieldNow::new(10, 1));
    assert_eq!(ex.run_until(&handle), Err(TaskError::CancelledBeforeCompletion));
    assert_eq!(ex.poll_budget(), 0);
    assert_eq!(ex.ready_len(), 0);
    assert!(!ex.any_live());
    assert_eq!(ex.run_until(&handle), Err(TaskError::CancelledBeforeCompletion));
}

#[test]
fn budget_that_just_suffices_lets_the_task_complete() {
    let mut ex: Executor<YieldNow<u64>> = Executor::with_poll_budget(3);
    let handle = ex.spawn(YieldNow::new(2, 1));
    assert_eq!(ex.run_until(&handle), Ok(1));
    assert_eq!(ex.poll_budget(), 0);
}

#[test]
fn turn_reports_a_spent_budget() {
    let mut ex: Executor<YieldNow<u64>> = Executor::with_poll_budget(1);
    ex.spawn(YieldNow::new(5, 1));
    assert_eq!(ex.turn(), Turn::Polled(0));
    assert_eq!(ex.turn(), Turn::Exhausted);
    assert_eq!(ex.ready_len(), 1);
}

#[test]
fn run_all_with_a_spent_budget_cancels_what_is_live() {
    let mut ex: Executor<YieldNow<u64>> = Executor::with_poll_budget(2);
    let a = ex.spawn(YieldNow::new(0, 1));
    let b = ex.spawn(YieldNow::new(9, 2));
    assert_eq!(ex.run_all(), Err(TaskError::CancelledBeforeCompletion));
    assert!(!ex.any_live());
    assert_eq!(ex.ready_len(), 0);
    assert_eq!(ex.take(&a), Some(Ok(1)));
    assert_eq!(ex.take(&b), None);
}

#[test]
fn run_all_drains_every_task() {
    let mut ex: Executor<Leaf<u64>> = Executor::new();
    let a = ex.spawn(Leaf::after(300, 1));
    let b = ex.spawn(Leaf::after(100, 2));
    let c = ex.spawn(Leaf::failing(200, Fault { code: 4 }));
    assert_eq!(ex.run_all(), Ok(()));
    assert_eq!(ex.now(), 300);
    assert!(!ex.any_live());
    assert_eq!(ex.take(&a), Some(Ok(1)));
    assert_eq!(ex.take(&b), Some(Ok(2)));
    assert_eq!(ex.take(&c), Some(Err(TaskError::TaskFailure(Fault { code: 4 }))));
    assert_eq!(ex.take(&a), None);
}

#[test]
fn run_all_on_an_empty_executor_succeeds() {
    let mut ex: Executor<Leaf<u64>> = Executor::new();
    assert_eq!(ex.run_all(), Ok(()));
}

#[test]
fn failure_of_a_task_reaches_the_caller() {
    let mut ex: Executor<Leaf<u64>> = Executor::new();
    let handle = ex.spawn(Leaf::failing(0, Fault { code: 11 }));
    assert_eq!(
        ex.run_until(&handle),
        Err(TaskError::TaskFailure(Fault { code: 11 }))
    );
}

#[test]
fn task_spawned_after_its_result_reports_the_double_poll() {
    let mut leaf = Leaf::ready(1u64);
    let mut cx = Context::new(Waker::for_task(0), 0);
    assert_eq!(leaf.poll(&mut cx), Poll::Ready(Ok(1)));
    let mut ex: Executor<Leaf<u64>> = Executor::new();
    let handle = ex.spawn(leaf);
    assert_eq!(ex.run_until(&handle), Err(TaskError::DoublePollAfterReady));
}

#[test]
fn result_is_handed_out_once() {
    let mut ex: Executor<Leaf<u64>> = Executor::new();
    let handle = ex.spawn(Leaf::ready(5));
    assert_eq!(ex.run_until(&handle), Ok(5));
    assert_eq!(ex.run_until(&handle), Err(TaskError::CancelledBeforeCompletion));
    assert_eq!(ex.take(&handle), None);
}

#[test]
fn run_until_leaves_other_results_in_place() {
    let mut ex: Executor<Leaf<u64>> = Executor::new();
    let a = ex.spawn(Leaf::after(10, 1));
    let b = ex.spawn(Leaf::after(20, 2));
    assert_eq!(ex.run_until(&b), Ok(2));
    assert_eq!(ex.now(), 20);
    assert_eq!(ex.take(&a), Some(Ok(1)));
}

#[test]
fn run_until_stops_as_soon_as_its_task_is_done() {
    let mut ex: Executor<Leaf<u64>> = Executor::new();
    let a = ex.spawn(Leaf::after(10, 1));
    let b = ex.spawn(Leaf::after(2000, 2));
    assert_eq!(ex.run_until(&a), Ok(1));
    assert_eq!(ex.now(), 10);
    assert_eq!(ex.next_deadline(), Some(2000));
    assert_eq!(ex.take(&b), None);
    assert!(ex.any_live());
}

#[test]
fn handle_of_another_executor_counts_as_cancelled() {
    let mut other: Executor<Leaf<u64>> = Executor::new();
    other.spawn(Leaf::ready(1));
    let stranger = other.spawn(Leaf::ready(2));
    let mut ex: Executor<Leaf<u64>> = Executor::new();
    ex.spawn(Leaf::ready(3));
    assert_eq!(ex.run_until(&stranger), Err(TaskError::CancelledBeforeCompletion));
    assert_eq!(ex.take(&stranger), None);
    ex.wake(stranger.waker());
    assert_eq!(ex.ready_len(), 1);
}

#[test]
fn cancelled_task_is_gone_and_its_waker_does_nothing() {
    let mut ex: Executor<Leaf<u64>> = Executor::new();
    let a = ex.spawn(Leaf::after(100, 1));
    let b = ex.spawn(Leaf::after(200, 2));
    let waker = a.waker();
    assert_eq!(ex.turn(), Turn::Polled(0));
    assert_eq!(ex.turn(), Turn::Polled(1));
    assert_eq!(ex.next_deadline(), Some(100));
    ex.cancel(a);
    assert_eq!(ex.next_deadline(), Some(200));
    ex.wake(waker);
    ex.wake(waker);
    assert_eq!(ex.ready_len(), 0);
    assert_eq!(ex.run_until(&b), Ok(2));
    assert_eq!(ex.now(), 200);
}

#[test]
fn cancelling_a_queued_task_takes_it_out_of_the_queue() {
    let (open, log) = shut_gate();
    open.set(true);
    let mut ex: Executor<Gated> = Executor::new();
    let a = ex.spawn(Gated::new(1, &open, &log));
    let b = ex.spawn(Gated::new(2, &open, &log));
    let c = ex.spawn(Gated::new(3, &open, &log));
    assert_eq!(ex.ready_len(), 3);
    ex.cancel(b);
    assert_eq!(ex.ready_len(), 2);
    assert_eq!(ex.run_all(), Ok(()));
    assert_eq!(*log.borrow(), vec![1, 3]);
    assert_eq!(ex.take(&a), Some(Ok(1)));
    assert_eq!(ex.take(&c), Some(Ok(3)));
}

#[test]
fn cancelling_a_finished_task_drops_its_result() {
    let mut ex: Executor<Leaf<u64>> = Executor::new();
    let a = ex.spawn(Leaf::ready(1));
    let again = ex.spawn(Leaf::ready(2));
    assert_eq!(ex.run_all(), Ok(()));
    let waker = a.waker();
    ex.cancel(a);
    ex.wake(waker);
    assert_eq!(ex.ready_len(), 0);
    assert_eq!(ex.take(&again), Some(Ok(2)));
}

#[test]
fn cancel_all_drops_live_tasks_and_keeps_results() {
    let mut ex: Executor<Leaf<u64>> = Executor::new();
    let a = ex.spawn(Leaf::ready(1));
    let b = ex.spawn(Leaf::after(100, 2));
    assert_eq!(ex.turn(), Turn::Polled(0));
    assert_eq!(ex.turn(), Turn::Polled(1));
    ex.cancel_all();
    assert!(!ex.any_live());
    assert_eq!(ex.next_deadline(), None);
    assert_eq!(ex.ready_len(), 0);
    assert_eq!(ex.take(&a), Some(Ok(1)));
    assert_eq!(ex.run_until(&b), Err(TaskError::CancelledBeforeCompletion));
}

#[test]
fn waking_a_finished_task_does_nothing() {
    let mut ex: Executor<Leaf<u64>> = Executor::new();
    let handle = ex.spawn(Leaf::ready(1));
    assert_eq!(ex.turn(), Turn::Polled(0));
    ex.wake(handle.waker());
    assert_eq!(ex.ready_len(), 0);
    assert_eq!(ex.take(&handle), Some(Ok(1)));
}

#[test]
fn turn_says_what_it_waits_for() {
    let mut ex: Executor<Leaf<u64>> = Executor::new();
    assert_eq!(ex.turn(), Turn::Idle);
    ex.spawn(Leaf::after(70, 1));
    ex.spawn(Leaf::after(30, 2));
    assert_eq!(ex.turn(), Turn::Polled(0));
    assert_eq!(ex.turn(), Turn::Polled(1));
    assert_eq!(ex.turn(), Turn::Waiting(30));
    assert_eq!(ex.next_deadline(), Some(30));
    assert_eq!(ex.now(), 0);
    ex.advance();
    assert_eq!(ex.now(), 30);
    assert_eq!(ex.ready_len(), 1);
    assert_eq!(ex.next_deadline(), Some(70));
    assert_eq!(ex.turn(), Turn::Polled(1));
    assert_eq!(ex.turn(), Turn::Waiting(70));
}

#[test]
fn advance_sets_off_every_due_alarm_in_the_order_of_the_tasks() {
    let mut ex: Executor<Leaf<u64>> = Executor::new();
    ex.spawn(Leaf::after(50, 1));
    ex.spawn(Leaf::after(90, 2));
    ex.spawn(Leaf::after(50, 3));
    assert_eq!(ex.turn(), Turn::Polled(0));
    assert_eq!(ex.turn(), Turn::Polled(1));
    assert_eq!(ex.turn(), Turn::Polled(2));
    ex.advance();
    assert_eq!(ex.now(), 50);
    assert_eq!(ex.ready_len(), 2);
    assert_eq!(ex.turn(), Turn::Polled(0));
    assert_eq!(ex.turn(), Turn::Polled(2));
    assert_eq!(ex.turn(), Turn::Waiting(90));
}

#[test]
fn advance_without_an_alarm_changes_nothing() {
    let mut ex: Executor<Leaf<u64>> = Executor::new();
    ex.spawn(Leaf::after(50, 1));
    ex.advance();
    assert_eq!(ex.now(), 0);
    assert_eq!(ex.ready_len(), 1);
}

#[test]
fn settle_stores_a_result_and_rearms_a_suspended_task() {
    let mut ex: Executor<Never> = Executor::new();
    let a = ex.spawn(Never);
    let b = ex.spawn(Never);
    assert_eq!(ex.turn(), Turn::Polled(0));
    assert_eq!(ex.turn(), Turn::Polled(1));
    ex.settle(0, Poll::Pending, Interest { wake: true, alarm: Some(40) });
    assert_eq!(ex.ready_len(), 1);
    assert_eq!(ex.next_deadline(), Some(40));
    ex.settle(0, Poll::Pending, Interest { wake: true, alarm: Some(60) });
    assert_eq!(ex.ready_len(), 1);
    assert_eq!(ex.next_deadline(), Some(40));
    ex.settle(1, Poll::Ready(Ok(77)), Interest { wake: false, alarm: None });
    assert_eq!(ex.take(&b), Some(Ok(77)));
    assert_eq!(ex.take(&a), None);
}

#[test]
fn chain_runs_both_units_one_after_the_other() {
    let mut ex = Executor::new();
    let handle = ex.spawn(chain(Leaf::after(100, 2u64), |v: u64| Leaf::after(25, v + 40)));
    assert_eq!(ex.run_until(&handle), Ok(42));
    assert_eq!(ex.now(), 125);
}

#[test]
fn cancelled_chain_never_invokes_its_continuation() {
    let calls = Rc::new(Cell::new(0u32));
    let seen = calls.clone();
    let mut ex = Executor::new();
    let handle = ex.spawn(chain(Leaf::after(100, 2u64), move |v: u64| {
        seen.set(seen.get() + 1);
        Leaf::ready(v)
    }));
    assert_eq!(ex.turn(), Turn::Polled(0));
    ex.cancel(handle);
    assert_eq!(ex.run_all(), Ok(()));
    assert_eq!(calls.get(), 0);
    assert_eq!(ex.now(), 0);
}

#[test]
fn delay_runs_for_its_time() {
    let mut ex: Executor<Delay> = Executor::new();
    let handle = ex.spawn(Delay::new(ex.now(), 300));
    assert_eq!(ex.run_until(&handle), Ok(()));
    assert_eq!(ex.now(), 300);
}

#[test]
fn delay_made_before_it_is_spawned_ends_when_it_was_made_to_end() {
    let mut ex: Executor<Leaf<u64>> = Executor::new();
    let first = ex.spawn(Leaf::after(100, 1));
    assert_eq!(ex.run_until(&first), Ok(1));
    assert_eq!(ex.now(), 100);
    let mut pauses: Executor<Delay> = Executor::new();
    let made_at_zero = Delay::new(0, 300);
    let other = pauses.spawn(Delay::new(0, 100));
    assert_eq!(pauses.run_until(&other), Ok(()));
    assert_eq!(pauses.now(), 100);
    let handle = pauses.spawn(made_at_zero);
    assert_eq!(pauses.run_until(&handle), Ok(()));
    assert_eq!(pauses.now(), 300);
    let late = pauses.spawn(Delay::new(pauses.now(), 300));
    assert_eq!(pauses.run_until(&late), Ok(()));
    assert_eq!(pauses.now(), 600);
    assert_eq!(block_on(Delay::new(0, 0)), Ok(()));
}

#[test]
fn step_until_polls_sleeps_and_hands_out_the_result() {
    let mut ex: Executor<Leaf<u64>> = Executor::new();
    let handle = ex.spawn(Leaf::after(40, 8));
    assert_eq!(ex.step_until(&handle), Step::Polled);
    assert_eq!(ex.step_until(&handle), Step::Sleep(40));
    assert_eq!(ex.step_until(&handle), Step::Sleep(40));
    assert_eq!(ex.now(), 0);
    ex.advance();
    assert_eq!(ex.now(), 40);
    assert_eq!(ex.step_until(&handle), Step::Polled);
    assert_eq!(ex.step_until(&handle), Step::Done(Ok(8)));
    assert_eq!(ex.step_until(&handle), Step::Done(Err(TaskError::CancelledBeforeCompletion)));
}

#[test]
fn step_until_tells_a_cancelled_task_from_a_deadlock() {
    let mut ex: Executor<Never> = Executor::new();
    let stuck = ex.spawn(Never);
    let gone = ex.spawn(Never);
    let gone_again = gone.waker();
    assert_eq!(ex.step_until(&stuck), Step::Polled);
    assert_eq!(ex.step_until(&stuck), Step::Polled);
    assert_eq!(ex.step_until(&stuck), Step::Done(Err(TaskError::DeadlockDetected)));
    assert!(ex.any_live());
    ex.cancel(gone);
    ex.wake(gone_again);
    let mut other: Executor<Never> = Executor::new();
    other.spawn(Never);
    let stranger = other.spawn(Never);
    assert_eq!(stranger.id(), 1);
    assert_eq!(
        ex.step_until(&stranger),
        Step::Done(Err(TaskError::CancelledBeforeCompletion))
    );
}

#[test]
fn step_until_cancels_the_task_when_the_budget_is_spent() {
    let mut ex: Executor<YieldNow<u64>> = Executor::with_poll_budget(1);
    let handle = ex.spawn(YieldNow::new(5, 1));
    assert_eq!(ex.step_until(&handle), Step::Polled);
    assert_eq!(ex.ready_len(), 1);
    assert_eq!(ex.step_until(&handle), Step::Done(Err(TaskError::CancelledBeforeCompletion)));
    assert_eq!(ex.ready_len(), 0);
    assert!(!ex.any_live());
}

#[test]
fn block_on_runs_a_task_alone() {
    assert_eq!(block_on(Leaf::after(0, 42u64)), Ok(42));
    assert_eq!(block_on(Leaf::after(750, 1u64)), Ok(1));
    assert_eq!(
        block_on(Leaf::<u64>::failing(10, Fault { code: 2 })),
        Err(TaskError::TaskFailure(Fault { code: 2 }))
    );
    assert_eq!(block_on(Never), Err(TaskError::DeadlockDetected));
    assert_eq!(block_on(YieldNow::new(3, 9u64)), Ok(9));
    assert_eq!(
        block_on(join_all(vec![Leaf::after(2, 1u64), Leaf::after(1, 2u64)])),
        Ok(vec![1, 2])
    );
}

fn one_more_later(v: u64) -> Leaf<u64> {
    Leaf::after(100, v + 1)
}

#[test]
fn join_of_chains_runs_each_chain_at_its_own_pace() {
    let mut ex = Executor::new();
    let slow = chain(Leaf::after(100, 1u64), one_more_later);
    let fast = chain(Leaf::after(10, 10u64), one_more_later);
    let handle = ex.spawn(join_all(vec![slow, fast]));
    assert_eq!(ex.turn(), Turn::Polled(0));
    assert_eq!(ex.turn(), Turn::Waiting(10));
    assert_eq!(ex.run_until(&handle), Ok(vec![2, 11]));
    assert_eq!(ex.now(), 200);
}
