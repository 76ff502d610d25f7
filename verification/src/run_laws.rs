//! Laws about whole runs of the executor: a lone leaf, a lone pause and a
//! lone join of leaves run to the results they were made with.

use crate::context::Interest;
use crate::delay::Delay;
use crate::executor::{earliest, lemma_advance_disarms, lemma_fire, lone, ExecutorView, Slot};
use crate::join::{filled, lemma_all_filled, lemma_filled_grows, JoinAll};
use crate::leaf::{deadline_after, Leaf};
use crate::poll::{Fault, Outcome, Poll, TaskError};
use crate::unit::{may_resolve, TaskUnit};
use vstd::prelude::*;

verus! {

/// The earliest of one alarm is that alarm.
pub proof fn lemma_earliest_of_one(alarms: Seq<Option<u64>>)
    requires
        alarms.len() == 1,
    ensures
        earliest(alarms) == alarms[0],
{
    assert(alarms.drop_last() =~= Seq::<Option<u64>>::empty());
    assert(earliest(alarms.drop_last()) is None);
}

/// When an executor holds one live task, nothing is ready and the task's
/// alarm is armed, the passing of time sets the clock to the alarm's time,
/// unless it is ahead of it already, disarms the alarm and queues the task.
pub proof fn lemma_lone_alarm_goes_off<K: TaskUnit>(s: ExecutorView<K>)
    requires
        s.slots.len() == 1,
        s.alarms.len() == 1,
        s.alarms[0] is Some,
        s.queue.len() == 0,
        s.is_live(0),
    ensures
        s.next_alarm() == s.alarms[0],
        s.advance().slots == s.slots,
        s.advance().alarms.len() == 1,
        s.advance().alarms[0] is None,
        s.advance().queue =~= seq![0usize],
        s.advance().budget == s.budget,
        s.advance().clock == if s.clock < s.alarms[0]->0 {
            s.alarms[0]->0
        } else {
            s.clock
        },
{
    let due = s.alarms[0]->0;
    lemma_earliest_of_one(s.alarms);
    let timed = ExecutorView { clock: if s.clock < due { due } else { s.clock }, ..s };
    assert(timed.fire(0) == timed);
    assert(timed.due(0));
    assert(timed.is_live(0));
    assert(!timed.queue.contains(0usize));
    assert(timed.fire(1) == (ExecutorView { alarms: timed.alarms.update(0, None), ..timed }).wake(
        0usize,
    ));
    assert(s.advance() == timed.fire(1));
}

/// The suspended unit waits for the time `due` and for nothing else: it has
/// asked for an alarm at `due`, and a poll at `due` resolves it to `out`.
pub open spec fn awaits<K: TaskUnit>(unit: K, due: u64, out: Outcome<K::Output>) -> bool {
    &&& unit.interest() == (Interest { wake: false, alarm: Some(due) })
    &&& forall|r: Outcome<K::Output>| #[trigger] may_resolve(&unit, due, r) ==> r == out
    &&& forall|post: K| !#[trigger] unit.suspends(due, &post)
}

/// Polled for the first time at `clock`, the unit is a timer for the time
/// `due` with the result `out`: it resolves only if `due` has come, and only
/// to `out`, and it suspends only if `due` has not come, and then waits for
/// it.
pub open spec fn times<K: TaskUnit>(unit: K, clock: u64, due: u64, out: Outcome<K::Output>) -> bool {
    &&& forall|r: Outcome<K::Output>| #[trigger]
        may_resolve(&unit, clock, r) ==> clock >= due && r == out
    &&& forall|post: K| #[trigger]
        unit.suspends(clock, &post) ==> clock < due && awaits(post, due, out)
}

/// Where a run of a lone timer stands after `n` turns. A timer that is due
/// at once is polled and done. Any other timer is polled and arms its alarm,
/// then time passes until the alarm wakes it, and then it is polled again and
/// done.
pub open spec fn lone_timer_after<K: TaskUnit>(
    unit: K,
    clock: u64,
    budget: u64,
    due: u64,
    out: Outcome<K::Output>,
    x: ExecutorView<K>,
    n: nat,
) -> bool {
    if n == 0 {
        x == lone(unit, clock, budget)
    } else if due <= clock {
        &&& n == 1
        &&& x.slots.len() == 1
        &&& x.slots[0] == Slot::<K>::Finished(out)
        &&& x.clock == clock
    } else {
        &&& n <= 3
        &&& x.slots.len() == 1
        &&& x.alarms.len() == 1
        &&& n == 1 ==> {
            &&& x.slots[0] matches Slot::Live(l) && awaits(l, due, out)
            &&& x.alarms[0] == Some(due)
            &&& x.queue.len() == 0
            &&& x.clock == clock
            &&& x.budget == budget - 1
        }
        &&& n == 2 ==> {
            &&& x.slots[0] matches Slot::Live(l) && awaits(l, due, out)
            &&& x.alarms[0] is None
            &&& x.queue =~= seq![0usize]
            &&& x.clock == due
            &&& x.budget == budget - 1
        }
        &&& n == 3 ==> {
            &&& x.slots[0] == Slot::<K>::Finished(out)
            &&& x.clock == due
        }
    }
}

/// Every run of a lone timer goes the one way that `lone_timer_after`
/// describes.
pub proof fn lemma_lone_timer_trace<K: TaskUnit>(
    unit: K,
    clock: u64,
    budget: u64,
    due: u64,
    out: Outcome<K::Output>,
    x: ExecutorView<K>,
    n: nat,
)
    requires
        times(unit, clock, due, out),
        budget >= 2,
        lone(unit, clock, budget).runs(x, Some(0usize), n),
    ensures
        lone_timer_after(unit, clock, budget, due, out, x, n),
    decreases n,
{
    let start = lone(unit, clock, budget);
    let target = Some(0usize);
    if n > 0 {
        let mid = choose|mid: ExecutorView<K>|
            start.runs(mid, target, (n - 1) as nat) && #[trigger] mid.steps_to(x, target);
        lemma_lone_timer_trace(unit, clock, budget, due, out, mid, (n - 1) as nat);
        assert(!mid.halted(target) && mid.turned(x));
        if n == 1 {
            assert(mid == start);
            assert(mid.queue[0] == 0usize);
            assert(mid.polled_front(x));
            let popped = mid.pop();
            assert(popped.queue =~= Seq::<usize>::empty());
            match x.slots[0] {
                Slot::Live(after) => {
                    assert(unit.suspends(clock, &after));
                    assert(x == popped.with_task(0, after).settle(
                        0,
                        Poll::Pending,
                        after.interest(),
                    ));
                },
                Slot::Finished(r) => {
                    assert(may_resolve(&unit, clock, r));
                    assert(x == popped.settle(0, Poll::Ready(r), Interest::nothing()));
                },
                Slot::Vacant => {},
            }
        } else if due <= clock {
            assert(!mid.is_live(0));
        } else if n == 2 {
            assert(mid.is_live(0));
            lemma_lone_alarm_goes_off(mid);
        } else if n == 3 {
            assert(mid.queue[0] == 0usize);
            assert(mid.polled_front(x));
            let before = mid.slots[0]->Live_0;
            match x.slots[0] {
                Slot::Live(after) => {
                    assert(before.suspends(due, &after));
                },
                Slot::Finished(r) => {
                    assert(may_resolve(&before, due, r));
                    assert(x == mid.pop().settle(0, Poll::Ready(r), Interest::nothing()));
                },
                Slot::Vacant => {},
            }
        } else {
            if n == 4 {
                assert(!mid.is_live(0));
            }
        }
    }
}

/// A lone timer runs to its result: however a run that waits for it goes,
/// it stops with the timer done and hands out its result, after one poll if
/// the timer is due at once, and else after a poll, the passing of time and
/// another poll, with the clock at the time the timer was set for.
pub proof fn lemma_lone_timer_runs_to_its_result<K: TaskUnit>(
    unit: K,
    clock: u64,
    budget: u64,
    due: u64,
    out: Outcome<K::Output>,
    mid: ExecutorView<K>,
    n: nat,
)
    requires
        times(unit, clock, due, out),
        budget >= 2,
        lone(unit, clock, budget).runs(mid, Some(0usize), n),
        mid.halted(Some(0usize)),
    ensures
        mid.collect(0).1 == out,
        mid.clock == if due <= clock {
            clock
        } else {
            due
        },
        n == if due <= clock {
            1nat
        } else {
            3nat
        },
{
    lemma_lone_timer_trace(unit, clock, budget, due, out, mid, n);
    if n == 0 {
        assert(mid.queue[0] == 0usize);
        assert(mid.is_live(0));
    } else if due > clock {
        if n == 1 {
            lemma_earliest_of_one(mid.alarms);
            assert(mid.is_live(0));
        } else if n == 2 {
            assert(mid.queue.len() == 1);
            assert(mid.is_live(0));
        }
    }
}

/// A leaf that holds its result is a timer for its deadline.
pub proof fn lemma_leaf_is_a_timer<T>(leaf: Leaf<T>, clock: u64)
    requires
        leaf@.payload is Some,
    ensures
        times(leaf, clock, leaf@.due(clock), leaf@.outcome()),
{
    let due = leaf@.due(clock);
    let out = leaf@.outcome();
    assert forall|post: Leaf<T>| #[trigger] leaf.suspends(clock, &post) implies clock < due
        && awaits(post, due, out) by {
        assert(post@.due(due) == due);
        assert forall|r: Outcome<T>| #[trigger] may_resolve(&post, due, r) implies r == out by {}
        assert forall|after: Leaf<T>| !#[trigger] post.suspends(due, &after) by {}
    }
}

/// A lone leaf runs to its result: however a run that waits for it goes, it
/// stops with the leaf done, hands out the value or the fault that the leaf
/// was made with, and leaves the clock at the leaf's deadline, or where it
/// was if the deadline had passed.
pub proof fn lemma_lone_leaf_runs_to_its_result<T>(
    leaf: Leaf<T>,
    clock: u64,
    budget: u64,
    mid: ExecutorView<Leaf<T>>,
    n: nat,
)
    requires
        leaf@.payload is Some,
        budget >= 2,
        lone(leaf, clock, budget).runs(mid, Some(0usize), n),
        mid.halted(Some(0usize)),
    ensures
        mid.collect(0).1 == leaf@.outcome(),
        mid.clock == if leaf@.due(clock) <= clock {
            clock
        } else {
            leaf@.due(clock)
        },
        leaf@.deadline is None ==> mid.clock == deadline_after(clock, leaf@.delay),
        n == if leaf@.due(clock) <= clock {
            1nat
        } else {
            3nat
        },
{
    lemma_leaf_is_a_timer(leaf, clock);
    lemma_lone_timer_runs_to_its_result(
        leaf,
        clock,
        budget,
        leaf@.due(clock),
        leaf@.outcome(),
        mid,
        n,
    );
}

/// A pause that is not over is a timer for the time at which it ends.
pub proof fn lemma_delay_is_a_timer(pause: Delay, clock: u64)
    requires
        pause.inv(),
        !pause.finished(),
    ensures
        times(pause, clock, pause.until(), Ok::<(), TaskError>(())),
{
    let due = pause.until();
    let out = Ok::<(), TaskError>(());
    assert forall|post: Delay| #[trigger] pause.suspends(clock, &post) implies clock < due
        && awaits(post, due, out) by {
        assert(post.until() == due);
        assert forall|r: Outcome<()>| #[trigger] may_resolve(&post, due, r) implies r == out by {}
        assert forall|after: Delay| !#[trigger] post.suspends(due, &after) by {}
    }
}

/// A lone pause runs out: however a run that waits for it goes, it stops
/// with the pause over, hands out `Ok(())`, and leaves the clock at the time
/// at which the pause ends, or where it was if that time had passed. A pause
/// made at time `now` for `delay` ends at `now + delay`, whenever the run
/// begins.
pub proof fn lemma_lone_delay_runs_out(
    pause: Delay,
    clock: u64,
    budget: u64,
    mid: ExecutorView<Delay>,
    n: nat,
)
    requires
        pause.inv(),
        !pause.finished(),
        budget >= 2,
        lone(pause, clock, budget).runs(mid, Some(0usize), n),
        mid.halted(Some(0usize)),
    ensures
        mid.collect(0).1 == Ok::<(), TaskError>(()),
        mid.clock == if pause.until() <= clock {
            clock
        } else {
            pause.until()
        },
        n == if pause.until() <= clock {
            1nat
        } else {
            3nat
        },
{
    lemma_delay_is_a_timer(pause, clock);
    lemma_lone_timer_runs_to_its_result(
        pause,
        clock,
        budget,
        pause.until(),
        Ok::<(), TaskError>(()),
        mid,
        n,
    );
}

/// A join of leaves that no poll has touched: no child has completed, and
/// every child still holds its result and has no deadline yet.
pub open spec fn untouched<T>(join: JoinAll<Leaf<T>>) -> bool {
    &&& !join@.resolved
    &&& join@.slots.len() == join@.children.len()
    &&& forall|i: int| 0 <= i < join@.children.len() ==> (#[trigger] join@.slots[i]) is None
    &&& forall|i: int|
        0 <= i < join@.children.len() ==> (#[trigger] join@.children[i])@.payload is Some
            && join@.children[i]@.deadline is None
}

/// At time `now`, the child `cur` with its slot `slot` is on the course
/// that the leaf `made` set out on at time `start`: if it has completed, its
/// deadline has passed and its slot holds the value that `made` holds; if not,
/// it holds what `made` holds and a poll now would put its deadline where a
/// poll of `made` at `start` puts it.
pub open spec fn on_course<T>(made: Leaf<T>, start: u64, cur: Leaf<T>, slot: Option<T>, now: u64) -> bool {
    let due = deadline_after(start, made@.delay);
    match slot {
        Some(v) => made@.payload == Some(Ok::<T, Fault>(v)) && now >= due,
        None => cur@.payload == made@.payload && cur@.payload is Some && cur@.due(now) == due,
    }
}

/// The join `j` is unresolved and each of its children is on the course of
/// the child of `made` in its place.
pub open spec fn join_on_course<T>(
    made: JoinAll<Leaf<T>>,
    start: u64,
    j: JoinAll<Leaf<T>>,
    now: u64,
) -> bool {
    &&& !j@.resolved
    &&& j@.children.len() == made@.children.len()
    &&& j@.slots.len() == made@.children.len()
    &&& forall|i: int|
        0 <= i < made@.children.len() ==> on_course(
            made@.children[i],
            start,
            #[trigger] j@.children[i],
            j@.slots[i],
            now,
        )
}

/// The result `r` is one that the leaves of `made` give when they set out
/// at time `start` and the join resolves at time `now`: their values in the
/// order of the children, no earlier than the latest of their deadlines, or
/// the fault of one of them.
pub open spec fn joint_result<T>(made: JoinAll<Leaf<T>>, start: u64, r: Outcome<Vec<T>>, now: u64) -> bool {
    match r {
        Ok(vs) => {
            &&& vs@.len() == made@.children.len()
            &&& forall|i: int|
                0 <= i < made@.children.len() ==> made@.children[i]@.payload == Some(
                    Ok::<T, Fault>(#[trigger] vs@[i]),
                ) && now >= deadline_after(start, made@.children[i]@.delay)
        },
        Err(e) => exists|k: int|
            0 <= k < made@.children.len() && (#[trigger] made@.children[k])@.payload == Some(
                Err::<T, Fault>(e->TaskFailure_0),
            ) && e is TaskFailure,
    }
}

/// What holds of every state of a run of the lone join `made` that set out
/// at time `start`, once a turn has been made.
pub open spec fn join_run_inv<T>(
    made: JoinAll<Leaf<T>>,
    start: u64,
    x: ExecutorView<JoinAll<Leaf<T>>>,
) -> bool {
    &&& x.slots.len() == 1
    &&& x.alarms.len() == 1
    &&& x.clock >= start
    &&& match x.slots[0] {
        Slot::Live(j) => join_on_course(made, start, j, x.clock) && forall|i: int|
            0 <= i < j@.children.len() && j@.slots[i] is None ==> (#[trigger] j@.children[i])@.deadline
                is Some,
        Slot::Finished(r) => exists|now: u64| now <= x.clock && #[trigger] joint_result(made, start, r, now),
        Slot::Vacant => false,
    }
}

/// An untouched join is on its own course at the time at which it sets
/// out.
pub proof fn lemma_untouched_is_on_course<T>(made: JoinAll<Leaf<T>>, start: u64)
    requires
        untouched(made),
    ensures
        join_on_course(made, start, made, start),
{
    assert forall|i: int| 0 <= i < made@.children.len() implies on_course(
        made@.children[i],
        start,
        #[trigger] made@.children[i],
        made@.slots[i],
        start,
    ) by {
        assert(made@.slots[i] is None);
    }
}

/// A poll of a join whose children are on course leaves them on course, or
/// resolves the join to a result of its leaves.
pub proof fn lemma_poll_keeps_course<T>(
    made: JoinAll<Leaf<T>>,
    start: u64,
    x: ExecutorView<JoinAll<Leaf<T>>>,
    y: ExecutorView<JoinAll<Leaf<T>>>,
)
    requires
        x.slots.len() == 1,
        x.alarms.len() == 1,
        x.clock >= start,
        x.slots[0] matches Slot::Live(j) && join_on_course(made, start, j, x.clock),
        x.polled_front(y),
    ensures
        join_run_inv(made, start, y),
{
    let now = x.clock;
    let j = x.slots[0]->Live_0;
    let n = made@.children.len();
    assert(x.queue[0] == 0usize) by {
        assert(x.is_live(x.queue[0] as int));
    }
    match y.slots[0] {
        Slot::Live(j2) => {
            assert(j.suspends(now, &j2));
            assert(y.clock == now);
            assert forall|i: int| 0 <= i < n implies on_course(
                made@.children[i],
                start,
                #[trigger] j2@.children[i],
                j2@.slots[i],
                now,
            ) && (j2@.slots[i] is None ==> j2@.children[i]@.deadline is Some) by {
                assert(on_course(made@.children[i], start, j@.children[i], j@.slots[i], now));
                assert(j@.child_step(j2@, i, now));
            }
        },
        Slot::Finished(r) => {
            assert(may_resolve(&j, now, r));
            assert(j.resolves(now, r));
            assert(y.clock == now);
            match r {
                Ok(vs) => {
                    assert(j@.yields(now, vs@));
                    assert forall|i: int| 0 <= i < n implies made@.children[i]@.payload == Some(
                        Ok::<T, Fault>(#[trigger] vs@[i]),
                    ) && now >= deadline_after(start, made@.children[i]@.delay) by {
                        assert(on_course(
                            made@.children[i],
                            start,
                            j@.children[i],
                            j@.slots[i],
                            now,
                        ));
                        let _ = vs@[i];
                    }
                },
                Err(e) => {
                    let k = choose|k: int| #[trigger] j@.fails_at(k, now, e);
                    assert(on_course(made@.children[k], start, j@.children[k], j@.slots[k], now));
                    assert(made@.children[k]@.payload == Some(Err::<T, Fault>(e->TaskFailure_0)));
                },
            }
            assert(joint_result(made, start, r, now));
        },
        Slot::Vacant => {},
    }
}

/// Every state of a run of a lone, untouched join of leaves is the first
/// state or one in which the children are on course or the join has resolved
/// to a result of its leaves.
pub proof fn lemma_join_run_stays_on_course<T>(
    made: JoinAll<Leaf<T>>,
    start: u64,
    budget: u64,
    x: ExecutorView<JoinAll<Leaf<T>>>,
    n: nat,
)
    requires
        untouched(made),
        lone(made, start, budget).runs(x, Some(0usize), n),
    ensures
        x == lone(made, start, budget) || join_run_inv(made, start, x),
    decreases n,
{
    let first = lone(made, start, budget);
    let target = Some(0usize);
    if n > 0 {
        let mid = choose|mid: ExecutorView<JoinAll<Leaf<T>>>|
            first.runs(mid, target, (n - 1) as nat) && #[trigger] mid.steps_to(x, target);
        lemma_join_run_stays_on_course(made, start, budget, mid, (n - 1) as nat);
        assert(!mid.halted(target) && mid.turned(x));
        if mid == first {
            assert(first.queue.len() == 1);
            lemma_untouched_is_on_course(made, start);
            lemma_poll_keeps_course(made, start, mid, x);
        } else if mid.queue.len() > 0 {
            let j = mid.slots[0]->Live_0;
            assert(mid.is_live(0));
            assert forall|i: int| 0 <= i < made@.children.len() implies on_course(
                made@.children[i],
                start,
                #[trigger] j@.children[i],
                j@.slots[i],
                mid.clock,
            ) by {}
            lemma_poll_keeps_course(made, start, mid, x);
        } else {
            lemma_advance_disarms(mid);
            let j = mid.slots[0]->Live_0;
            assert(mid.is_live(0));
            assert(x.slots == mid.slots);
            assert(x.alarms.len() == 1) by {
                lemma_fire(
                    ExecutorView {
                        clock: if mid.clock < mid.next_alarm()->0 {
                            mid.next_alarm()->0
                        } else {
                            mid.clock
                        },
                        ..mid
                    },
                    mid.slots.len(),
                );
            }
            assert forall|i: int| 0 <= i < made@.children.len() implies on_course(
                made@.children[i],
                start,
                #[trigger] j@.children[i],
                j@.slots[i],
                x.clock,
            ) by {
                assert(on_course(
                    made@.children[i],
                    start,
                    j@.children[i],
                    j@.slots[i],
                    mid.clock,
                ));
            }
        }
    }
}

/// A lone join of leaves runs to the results of its leaves. If a run that
/// waits for it hands out values, they are the values that the leaves were
/// made with, in the order of the children, and the clock has reached the
/// deadline of every leaf. If it hands out a failure of a task, that is the
/// fault that one of the leaves was made with.
pub proof fn lemma_lone_join_runs_to_the_results_of_its_leaves<T>(
    made: JoinAll<Leaf<T>>,
    start: u64,
    budget: u64,
    mid: ExecutorView<JoinAll<Leaf<T>>>,
    n: nat,
)
    requires
        untouched(made),
        lone(made, start, budget).runs(mid, Some(0usize), n),
        mid.halted(Some(0usize)),
    ensures
        mid.collect(0).1 matches Ok(vs) ==> {
            &&& vs@.len() == made@.children.len()
            &&& forall|i: int|
                0 <= i < made@.children.len() ==> made@.children[i]@.payload == Some(
                    Ok::<T, Fault>(#[trigger] vs@[i]),
                ) && mid.clock >= deadline_after(start, made@.children[i]@.delay)
        },
        mid.collect(0).1 matches Err(TaskError::TaskFailure(fault)) ==> exists|k: int|
            0 <= k < made@.children.len() && (#[trigger] made@.children[k])@.payload == Some(
                Err::<T, Fault>(fault),
            ),
        !(mid.collect(0).1 matches Err(TaskError::DoublePollAfterReady)),
{
    lemma_join_run_stays_on_course(made, start, budget, mid, n);
    if mid != lone(made, start, budget) {
        match mid.slots[0] {
            Slot::Finished(r) => {
                let now = choose|now: u64| now <= mid.clock && #[trigger] joint_result(made, start, r, now);
                assert(joint_result(made, start, r, now));
                match r {
                    Ok(vs) => {
                        assert forall|i: int| 0 <= i < made@.children.len() implies made@.children[i]@.payload
                            == Some(Ok::<T, Fault>(#[trigger] vs@[i])) && mid.clock
                            >= deadline_after(start, made@.children[i]@.delay) by {
                            let _ = vs@[i];
                        }
                    },
                    Err(e) => {},
                }
            },
            _ => {},
        }
    }
}

/// The join in the one slot of `x` is awaited in the right way: either
/// nothing is ready and the alarm is set for the deadline of a child that
/// has not completed, or the join is ready and the deadline of such a child
/// has come. And the polls made so far are at most one more than the children
/// that have completed.
pub open spec fn join_awaited<T>(
    made: JoinAll<Leaf<T>>,
    start: u64,
    budget: u64,
    x: ExecutorView<JoinAll<Leaf<T>>>,
) -> bool {
    x.slots[0] matches Slot::Live(j) ==> {
        &&& budget - x.budget <= 1 + filled(j@.slots)
        &&& exists|k: int|
            {
                &&& 0 <= k < made@.children.len()
                &&& (#[trigger] j@.slots[k]) is None
                &&& if x.queue.len() == 0 {
                    x.alarms[0] == Some(deadline_after(start, made@.children[k]@.delay))
                } else {
                    &&& x.queue =~= seq![0usize]
                    &&& x.alarms[0] is None
                    &&& deadline_after(start, made@.children[k]@.delay) <= x.clock
                }
            }
    }
}

/// The children of a suspended join of leaves ask, together, for no wake
/// in the next pass, and for an alarm at the deadline of one of them that
/// has not completed, if there is one.
pub proof fn lemma_join_asks_for_a_deadline<T>(
    made: JoinAll<Leaf<T>>,
    start: u64,
    j: JoinAll<Leaf<T>>,
    now: u64,
    n: nat,
)
    requires
        join_on_course(made, start, j, now),
        forall|i: int|
            0 <= i < j@.children.len() && j@.slots[i] is None ==> (#[trigger] j@.children[i])@.deadline
                is Some,
        n <= made@.children.len(),
    ensures
        !j@.joint_interest(n).wake,
        match j@.joint_interest(n).alarm {
            None => forall|i: int| 0 <= i < n ==> (#[trigger] j@.slots[i]) is Some,
            Some(m) => exists|k: int|
                0 <= k < n && (#[trigger] j@.slots[k]) is None && m == deadline_after(
                    start,
                    made@.children[k]@.delay,
                ),
        },
    decreases n,
{
    if n > 0 {
        lemma_join_asks_for_a_deadline(made, start, j, now, (n - 1) as nat);
        let i = n - 1;
        let before = j@.joint_interest((n - 1) as nat);
        assert(on_course(made@.children[i], start, j@.children[i], j@.slots[i], now));
        let due = deadline_after(start, made@.children[i]@.delay);
        if j@.slots[i] is None {
            assert(j@.children[i]@.deadline is Some);
            assert(j@.children[i].interest() == (Interest { wake: false, alarm: Some(due) }));
        }
        match j@.joint_interest(n).alarm {
            None => {
                assert forall|m: int| 0 <= m < n implies (#[trigger] j@.slots[m]) is Some by {}
            },
            Some(m) => {
                if j@.slots[i] is None && m == due {
                    assert(j@.slots[i] is None);
                } else {
                    let k = choose|k: int|
                        0 <= k < n - 1 && (#[trigger] j@.slots[k]) is None && before.alarm
                            == Some(deadline_after(start, made@.children[k]@.delay));
                    assert(j@.slots[k] is None);
                }
            },
        }
    }
}

/// A poll of a join of leaves that is on course, made at the start or when
/// the deadline of a child has come, leaves the join awaited in the right
/// way.
pub proof fn lemma_poll_keeps_join_awaited<T>(
    made: JoinAll<Leaf<T>>,
    start: u64,
    budget: u64,
    x: ExecutorView<JoinAll<Leaf<T>>>,
    y: ExecutorView<JoinAll<Leaf<T>>>,
)
    requires
        x.slots.len() == 1,
        x.alarms.len() == 1,
        x.clock >= start,
        x.queue =~= seq![0usize],
        x.alarms[0] is None,
        x.slots[0] matches Slot::Live(j) && join_on_course(made, start, j, x.clock),
        x == lone(made, start, budget) || join_awaited(made, start, budget, x),
        x.polled_front(y),
    ensures
        join_run_inv(made, start, y),
        join_awaited(made, start, budget, y),
{
    lemma_poll_keeps_course(made, start, x, y);
    let now = x.clock;
    let j = x.slots[0]->Live_0;
    let n = made@.children.len();
    match y.slots[0] {
        Slot::Live(j2) => {
            assert(j.suspends(now, &j2));
            assert(x.pop().queue =~= Seq::<usize>::empty());
            lemma_join_asks_for_a_deadline(made, start, j2, now, n);
            let i = choose|i: int| 0 <= i < j2@.slots.len() && (#[trigger] j2@.slots[i]) is None;
            assert(j2@.slots[i] is None);
            assert(j2.interest().alarm is Some);
            let m = j2.interest().alarm->0;
            let k2 = choose|k: int|
                0 <= k < n && (#[trigger] j2@.slots[k]) is None && m == deadline_after(
                    start,
                    made@.children[k]@.delay,
                );
            assert(y == x.pop().with_task(0, j2).settle(0, Poll::Pending, j2.interest()));
            assert(y.queue.len() == 0);
            assert(y.alarms[0] == Some(m));
            assert(j2@.slots[k2] is None);
            assert forall|i: int| 0 <= i < j@.slots.len() && (#[trigger] j@.slots[i])
                is Some implies j2@.slots[i] is Some by {
                assert(j@.child_step(j2@, i, now));
            }
            if x == lone(made, start, budget) {
                lemma_filled_grows(j@.slots, j2@.slots, 0);
            } else {
                let k = choose|k: int|
                    {
                        &&& 0 <= k < made@.children.len()
                        &&& (#[trigger] j@.slots[k]) is None
                        &&& deadline_after(start, made@.children[k]@.delay) <= x.clock
                    };
                assert(on_course(made@.children[k], start, j@.children[k], j@.slots[k], now));
                assert(j@.child_step(j2@, k, now));
                assert(j2@.slots[k] is Some);
                lemma_filled_grows(j@.slots, j2@.slots, k);
            }
        },
        _ => {},
    }
}

/// Every state of a run of a lone, untouched join of leaves, once a turn
/// has been made, is on course and has the join awaited in the right way.
pub proof fn lemma_join_run_is_awaited<T>(
    made: JoinAll<Leaf<T>>,
    start: u64,
    budget: u64,
    x: ExecutorView<JoinAll<Leaf<T>>>,
    n: nat,
)
    requires
        untouched(made),
        lone(made, start, budget).runs(x, Some(0usize), n),
    ensures
        x == lone(made, start, budget) || (join_run_inv(made, start, x) && join_awaited(
            made,
            start,
            budget,
            x,
        )),
    decreases n,
{
    let first = lone(made, start, budget);
    let target = Some(0usize);
    if n > 0 {
        let mid = choose|mid: ExecutorView<JoinAll<Leaf<T>>>|
            first.runs(mid, target, (n - 1) as nat) && #[trigger] mid.steps_to(x, target);
        lemma_join_run_is_awaited(made, start, budget, mid, (n - 1) as nat);
        lemma_join_run_stays_on_course(made, start, budget, x, n);
        assert(!mid.halted(target) && mid.turned(x));
        assert(mid.is_live(0));
        let j = mid.slots[0]->Live_0;
        if mid == first {
            assert(first.queue.len() == 1);
            lemma_untouched_is_on_course(made, start);
            lemma_poll_keeps_join_awaited(made, start, budget, mid, x);
        } else if mid.queue.len() > 0 {
            lemma_poll_keeps_join_awaited(made, start, budget, mid, x);
        } else {
            let k = choose|k: int|
                {
                    &&& 0 <= k < made@.children.len()
                    &&& (#[trigger] j@.slots[k]) is None
                    &&& mid.alarms[0] == Some(deadline_after(start, made@.children[k]@.delay))
                };
            lemma_lone_alarm_goes_off(mid);
            assert(j@.slots[k] is None);
        }
    }
}

/// A lone join of leaves completes. With a poll budget of one more than the
/// number of its children, a run that waits for it stops neither in a
/// deadlock nor for want of budget: it stops with the join resolved, to the
/// values of its leaves in the order of the children, or to the fault of one
/// of them.
pub proof fn lemma_lone_join_completes<T>(
    made: JoinAll<Leaf<T>>,
    start: u64,
    budget: u64,
    mid: ExecutorView<JoinAll<Leaf<T>>>,
    n: nat,
)
    requires
        untouched(made),
        budget > made@.children.len(),
        lone(made, start, budget).runs(mid, Some(0usize), n),
        mid.halted(Some(0usize)),
    ensures
        mid.slots.len() == 1,
        mid.slots[0] matches Slot::Finished(r) && r == mid.collect(0).1 && !(r matches Err(
            TaskError::DeadlockDetected,
        )) && !(r matches Err(TaskError::CancelledBeforeCompletion)),
        (forall|i: int|
            0 <= i < made@.children.len() ==> (#[trigger] made@.children[i])@.payload->0 is Ok)
            ==> mid.collect(0).1 is Ok,
{
    lemma_join_run_is_awaited(made, start, budget, mid, n);
    let first = lone(made, start, budget);
    if mid == first {
        assert(first.queue.len() == 1);
        assert(first.is_live(0));
    } else {
        match mid.slots[0] {
            Slot::Live(j) => {
                assert(mid.is_live(0));
                let k = choose|k: int|
                    {
                        &&& 0 <= k < made@.children.len()
                        &&& (#[trigger] j@.slots[k]) is None
                        &&& if mid.queue.len() == 0 {
                            mid.alarms[0] == Some(deadline_after(start, made@.children[k]@.delay))
                        } else {
                            &&& mid.queue =~= seq![0usize]
                            &&& mid.alarms[0] is None
                            &&& deadline_after(start, made@.children[k]@.delay) <= mid.clock
                        }
                    };
                if mid.queue.len() == 0 {
                    lemma_earliest_of_one(mid.alarms);
                } else {
                    if filled(j@.slots) >= j@.slots.len() {
                        lemma_all_filled(j@.slots);
                        assert(j@.slots[k] is Some);
                    }
                }
            },
            Slot::Finished(r) => {
                let now = choose|now: u64| now <= mid.clock && #[trigger] joint_result(made, start, r, now);
                if r is Err {
                    let k = choose|k: int|
                        0 <= k < made@.children.len() && (#[trigger] made@.children[k])@.payload
                            == Some(Err::<T, Fault>(r->Err_0->TaskFailure_0)) && r->Err_0
                            is TaskFailure;
                    assert(!(made@.children[k]@.payload->0 is Ok));
                }
            },
            Slot::Vacant => {},
        }
    }
}

} // verus!
