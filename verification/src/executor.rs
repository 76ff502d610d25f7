//! The cooperative scheduler: it owns the spawned task units, a FIFO queue of
//! the ones that are ready to be polled, one alarm per task, and the simulated
//! clock.

use crate::context::{earlier, Context, Interest, Waker};
use crate::poll::{Outcome, Poll, TaskError};
use crate::unit::{may_resolve, TaskUnit};
use std::collections::VecDeque;
use vstd::prelude::*;

verus! {

/// The earliest of the alarms in `alarms`, if any is armed.
pub open spec fn earliest(alarms: Seq<Option<u64>>) -> Option<u64>
    decreases alarms.len(),
{
    if alarms.len() == 0 {
        None
    } else {
        earlier(earliest(alarms.drop_last()), alarms.last())
    }
}

/// How many of the alarms in `alarms` are armed.
pub open spec fn armed(alarms: Seq<Option<u64>>) -> nat
    decreases alarms.len(),
{
    if alarms.len() == 0 {
        0
    } else {
        armed(alarms.drop_last()) + if alarms.last() is Some {
            1nat
        } else {
            0nat
        }
    }
}

/// The queue `q` without the identity `id`.
pub open spec fn without(q: Seq<usize>, id: usize) -> Seq<usize> {
    if q.contains(id) {
        q.remove(q.index_of(id))
    } else {
        q
    }
}

/// What one call of `Executor::turn` found and did.
#[derive(Clone, Copy, Debug, PartialEq, Eq, Structural)]
pub enum Turn {
    /// The task with this identity was at the front of the queue and has
    /// been polled.
    Polled(usize),
    /// Nothing is ready; the earliest alarm is set for this time.
    Waiting(u64),
    /// Nothing is ready and no alarm is armed.
    Idle,
    /// A task is ready, but the poll budget is spent.
    Exhausted,
}

/// What one call of `Executor::step_until` did on the way to the result
/// of a task.
#[derive(Debug, PartialEq, Eq)]
pub enum Step<T> {
    /// The run is over: this is what it hands to its caller.
    Done(Outcome<T>),
    /// The task at the front of the queue has been polled.
    Polled,
    /// Nothing is ready. Time has to pass until this deadline, the earliest
    /// alarm; `Executor::advance` is to be called when it has.
    Sleep(u64),
}

/// What the executor holds for one spawned task.
pub enum Slot<K: TaskUnit> {
    /// The task has not produced its result yet.
    Live(K),
    /// The task is done; its result waits to be collected.
    Finished(Outcome<K::Output>),
    /// The task was cancelled, or its result has been collected.
    Vacant,
}

/// Names a task of the executor that spawned it.
#[derive(Debug, PartialEq, Eq)]
pub struct TaskHandle {
    id: usize,
}

impl TaskHandle {
    /// The identity of the task.
    pub closed spec fn spec_id(&self) -> usize {
        self.id
    }

    /// The identity of the task.
    #[verifier::when_used_as_spec(spec_id)]
    pub fn id(&self) -> (id: usize)
        ensures
            id == self.id(),
    {
        self.id
    }

    /// A waker for the task, for use from outside any poll.
    pub fn waker(&self) -> (w: Waker)
        ensures
            w.task == self.id(),
    {
        Waker::for_task(self.id)
    }
}

/// The executor as a mathematical value.
pub ghost struct ExecutorView<K: TaskUnit> {
    /// One slot per task ever spawned, by identity.
    pub slots: Seq<Slot<K>>,
    /// For each task, the earliest time at which it asked to be woken.
    pub alarms: Seq<Option<u64>>,
    /// The identities waiting for a poll, the next one first.
    pub queue: Seq<usize>,
    /// The simulated time.
    pub clock: u64,
    /// How many polls the executor may still make.
    pub budget: u64,
}

impl<K: TaskUnit> ExecutorView<K> {
    /// The task `id` exists and has not produced its result.
    pub open spec fn is_live(self, id: int) -> bool {
        0 <= id < self.slots.len() && self.slots[id] is Live
    }

    /// The queue names only live tasks and none of them twice; only live
    /// tasks have an alarm; every live task is well formed.
    pub open spec fn wf(self) -> bool {
        &&& self.alarms.len() == self.slots.len()
        &&& self.queue.no_duplicates()
        &&& forall|j: int|
            0 <= j < self.queue.len() ==> self.is_live(#[trigger] self.queue[j] as int)
        &&& forall|i: int|
            0 <= i < self.slots.len() && (#[trigger] self.alarms[i]) is Some
                ==> self.slots[i] is Live
        &&& forall|i: int|
            0 <= i < self.slots.len() ==> ((#[trigger] self.slots[i]) matches Slot::Live(k)
                ==> k.inv())
    }

    /// The state after `task` has been spawned: it takes the next identity
    /// and the last place in the queue.
    pub open spec fn spawn(self, task: K) -> Self {
        ExecutorView {
            slots: self.slots.push(Slot::Live(task)),
            alarms: self.alarms.push(None),
            queue: self.queue.push(self.slots.len() as usize),
            ..self
        }
    }

    /// The state after the task at the front of the queue has been taken out
    /// for a poll, which is charged to the budget.
    pub open spec fn pop(self) -> Self
        recommends
            self.queue.len() > 0,
            self.budget > 0,
    {
        ExecutorView { queue: self.queue.drop_first(), budget: (self.budget - 1) as u64, ..self }
    }

    /// The state in which the live task `id` has become `task`.
    pub open spec fn with_task(self, id: usize, task: K) -> Self {
        ExecutorView { slots: self.slots.update(id as int, Slot::Live(task)), ..self }
    }

    /// The state after a poll of the live task `id` has returned `out` and
    /// left the requests `interest`. A result is stored and the alarm
    /// cleared. A suspended task keeps the earlier of its alarm and the one it
    /// asked for, and goes to the back of the queue if it asked to be woken.
    pub open spec fn settle(
        self,
        id: usize,
        out: Poll<Outcome<K::Output>>,
        interest: Interest,
    ) -> Self {
        match out {
            Poll::Ready(r) => ExecutorView {
                slots: self.slots.update(id as int, Slot::Finished(r)),
                alarms: self.alarms.update(id as int, None),
                ..self
            },
            Poll::Pending => {
                let armed = ExecutorView {
                    alarms: self.alarms.update(
                        id as int,
                        earlier(self.alarms[id as int], interest.alarm),
                    ),
                    ..self
                };
                if interest.wake {
                    armed.wake(id)
                } else {
                    armed
                }
            },
        }
    }

    /// One poll of the task at the front of the queue, at the time of the
    /// clock, may lead from this state to `post`.
    pub open spec fn polled_front(self, post: Self) -> bool {
        &&& self.queue.len() > 0
        &&& self.budget > 0
        &&& self.is_live(self.queue[0] as int)
        &&& post.slots.len() == self.slots.len()
        &&& {
            let id = self.queue[0];
            let before = self.slots[id as int]->Live_0;
            match post.slots[id as int] {
                Slot::Live(after) => {
                    &&& !before.finished()
                    &&& before.suspends(self.clock, &after)
                    &&& post == self.pop().with_task(id, after).settle(
                        id,
                        Poll::Pending,
                        after.interest(),
                    )
                },
                Slot::Finished(r) => {
                    &&& may_resolve(&before, self.clock, r)
                    &&& post == self.pop().settle(id, Poll::Ready(r), Interest::nothing())
                },
                Slot::Vacant => false,
            }
        }
    }

    /// The earliest armed alarm, if any.
    pub open spec fn next_alarm(self) -> Option<u64> {
        earliest(self.alarms)
    }

    /// The alarm of task `i` is armed and its time has come.
    pub open spec fn due(self, i: int) -> bool {
        0 <= i < self.alarms.len() && self.alarms[i] is Some && self.alarms[i]->0 <= self.clock
    }

    /// The state after the due alarms of the first `n` tasks have gone off,
    /// in the order of the tasks' identities: each is disarmed and wakes its
    /// task.
    pub open spec fn fire(self, n: nat) -> Self
        decreases n,
    {
        if n == 0 {
            self
        } else {
            let s = self.fire((n - 1) as nat);
            if s.due(n - 1) {
                (ExecutorView { alarms: s.alarms.update(n - 1, None), ..s }).wake((n - 1) as usize)
            } else {
                s
            }
        }
    }

    /// The state after time has passed until the earliest alarm: the clock
    /// shows that alarm's time, unless it is ahead of it already, and every
    /// alarm that is due has gone off. Without an armed alarm nothing
    /// changes.
    pub open spec fn advance(self) -> Self {
        match self.next_alarm() {
            None => self,
            Some(t) => (ExecutorView {
                clock: if self.clock < t {
                    t
                } else {
                    self.clock
                },
                ..self
            }).fire(self.slots.len()),
        }
    }

    /// The state after task `id` has been dropped: its slot is vacant, its
    /// alarm disarmed, and it has left the queue.
    pub open spec fn cancel(self, id: usize) -> Self {
        if id < self.slots.len() {
            ExecutorView {
                slots: self.slots.update(id as int, Slot::Vacant),
                alarms: self.alarms.update(id as int, None),
                queue: without(self.queue, id),
                ..self
            }
        } else {
            self
        }
    }

    /// The state after every live task has been dropped.
    pub open spec fn cancel_all(self) -> Self {
        ExecutorView {
            slots: Seq::new(
                self.slots.len(),
                |i: int|
                    if self.slots[i] is Live {
                        Slot::Vacant
                    } else {
                        self.slots[i]
                    },
            ),
            alarms: Seq::new(self.slots.len(), |i: int| None),
            queue: Seq::empty(),
            ..self
        }
    }

    /// The stored result of task `id`, if it has one, and the state after it
    /// has been handed out.
    pub open spec fn take(self, id: usize) -> (Self, Option<Outcome<K::Output>>) {
        if id < self.slots.len() && self.slots[id as int] is Finished {
            (
                ExecutorView { slots: self.slots.update(id as int, Slot::Vacant), ..self },
                Some(self.slots[id as int]->Finished_0),
            )
        } else {
            (self, None)
        }
    }

    /// Some task has not produced its result yet.
    pub open spec fn has_live(self) -> bool {
        exists|i: int| self.is_live(i)
    }

    /// No scheduling turn can be made: nothing is ready and no alarm is
    /// armed, or a task is ready and the poll budget is spent.
    pub open spec fn stuck(self) -> bool {
        if self.queue.len() == 0 {
            self.next_alarm() is None
        } else {
            self.budget == 0
        }
    }

    /// A run that waits for `target` (or, without a target, for all tasks)
    /// stops in this state.
    pub open spec fn halted(self, target: Option<usize>) -> bool {
        self.stuck() || (target matches Some(id) && !self.is_live(id as int))
    }

    /// One scheduling turn may lead from this state to `post`: a poll of the
    /// task at the front of the queue or, when nothing is ready, the passing
    /// of time until the earliest alarm.
    pub open spec fn turned(self, post: Self) -> bool {
        if self.queue.len() > 0 {
            self.polled_front(post)
        } else {
            self.next_alarm() is Some && post == self.advance()
        }
    }

    /// The run does not stop in this state, and its next turn may lead to
    /// `post`.
    pub open spec fn steps_to(self, post: Self, target: Option<usize>) -> bool {
        !self.halted(target) && self.turned(post)
    }

    /// `n` scheduling turns, none of them made in a state in which the run
    /// stops, may lead from this state to `post`.
    pub open spec fn runs(self, post: Self, target: Option<usize>, n: nat) -> bool
        decreases n,
    {
        if n == 0 {
            post == self
        } else {
            exists|mid: Self|
                self.runs(mid, target, (n - 1) as nat) && #[trigger] mid.steps_to(post, target)
        }
    }

    /// What a run that waited for task `id` hands to its caller in the state
    /// in which it stopped, and the state it leaves. A stored result is
    /// handed out. A task that is not there counts as cancelled. A live task
    /// is deadlocked when nothing is ready, and is cancelled when the poll
    /// budget is spent.
    pub open spec fn collect(self, id: usize) -> (Self, Outcome<K::Output>) {
        if id < self.slots.len() {
            match self.slots[id as int] {
                Slot::Finished(r) => (self.take(id).0, r),
                Slot::Vacant => (self, Err(TaskError::CancelledBeforeCompletion)),
                Slot::Live(_) => if self.queue.len() == 0 {
                    (self, Err(TaskError::DeadlockDetected))
                } else {
                    (self.cancel(id), Err(TaskError::CancelledBeforeCompletion))
                },
            }
        } else {
            (self, Err(TaskError::CancelledBeforeCompletion))
        }
    }

    /// What a run that waited for all tasks reports in the state in which it
    /// stopped, and the state it leaves: success when no task is live, a
    /// deadlock when live tasks remain and nothing is ready, and else, the
    /// poll budget being spent, the cancellation of all live tasks.
    pub open spec fn wind_up(self) -> (Self, Result<(), TaskError>) {
        if self.queue.len() == 0 {
            if self.has_live() {
                (self, Err(TaskError::DeadlockDetected))
            } else {
                (self, Ok(()))
            }
        } else {
            (self.cancel_all(), Err(TaskError::CancelledBeforeCompletion))
        }
    }

    /// The state after the waker of task `id` has been invoked: a live task
    /// that is not queued goes to the back of the queue, and nothing else
    /// changes.
    pub open spec fn wake(self, id: usize) -> Self {
        if self.is_live(id as int) && !self.queue.contains(id) {
            ExecutorView { queue: self.queue.push(id), ..self }
        } else {
            self
        }
    }
}

/// A cooperative single-threaded executor over task units of one type.
pub struct Executor<K: TaskUnit> {
    slots: Vec<Slot<K>>,
    alarms: Vec<Option<u64>>,
    queued: Vec<bool>,
    queue: VecDeque<usize>,
    clock: u64,
    budget: u64,
}

impl<K: TaskUnit> View for Executor<K> {
    type V = ExecutorView<K>;

    closed spec fn view(&self) -> ExecutorView<K> {
        ExecutorView {
            slots: self.slots@,
            alarms: self.alarms@,
            queue: self.queue@,
            clock: self.clock,
            budget: self.budget,
        }
    }
}

impl<K: TaskUnit> Executor<K> {
    /// The per-task flags say exactly which tasks are in the queue.
    pub closed spec fn flags_agree(&self) -> bool {
        &&& self.queued@.len() == self.slots@.len()
        &&& forall|i: usize|
            i < self.queued@.len() ==> (#[trigger] self.queued@[i as int]) == self.queue@.contains(i)
    }

    /// The executor's state is well formed.
    pub open spec fn inv(&self) -> bool {
        self@.wf() && self.flags_agree()
    }

    /// An executor without tasks, at time 0, that may make `budget` polls.
    pub fn with_poll_budget(budget: u64) -> (ex: Executor<K>)
        ensures
            ex.inv(),
            ex@ == (ExecutorView::<K> {
                slots: Seq::empty(),
                alarms: Seq::empty(),
                queue: Seq::empty(),
                clock: 0,
                budget,
            }),
    {
        Executor {
            slots: Vec::new(),
            alarms: Vec::new(),
            queued: Vec::new(),
            queue: VecDeque::new(),
            clock: 0,
            budget,
        }
    }

    /// An executor without tasks, at time 0, with the largest poll budget.
    pub fn new() -> (ex: Executor<K>)
        ensures
            ex.inv(),
            ex@ == (ExecutorView::<K> {
                slots: Seq::empty(),
                alarms: Seq::empty(),
                queue: Seq::empty(),
                clock: 0,
                budget: u64::MAX,
            }),
    {
        Executor::with_poll_budget(u64::MAX)
    }

    /// The simulated time.
    pub fn now(&self) -> (t: u64)
        ensures
            t == self@.clock,
    {
        self.clock
    }

    /// How many polls the executor may still make.
    pub fn poll_budget(&self) -> (n: u64)
        ensures
            n == self@.budget,
    {
        self.budget
    }

    /// How many tasks wait for a poll.
    pub fn ready_len(&self) -> (n: usize)
        ensures
            n == self@.queue.len(),
    {
        self.queue.len()
    }

    /// Takes ownership of `task` and puts it at the back of the ready queue.
    pub fn spawn(&mut self, task: K) -> (handle: TaskHandle)
        requires
            old(self).inv(),
            task.inv(),
        ensures
            final(self).inv(),
            final(self)@ == old(self)@.spawn(task),
            handle.id() == old(self)@.slots.len(),
    {
        let id = self.slots.len();
        self.slots.push(Slot::Live(task));
        self.alarms.push(None);
        self.queued.push(true);
        self.queue.push_back(id);
        proof {
            let q = old(self).queue@;
            assert forall|x: usize| q.push(id).contains(x) <==> (q.contains(x) || x == id) by {
                lemma_push_contains(q, id, x);
            }
            assert(!q.contains(id)) by {
                if q.contains(id) {
                    let j = choose|j: int| 0 <= j < q.len() && q[j] == id;
                    assert(old(self)@.is_live(q[j] as int));
                }
            }
            lemma_push_fresh(q, id);
            assert forall|j: int| 0 <= j < self@.queue.len() implies self@.is_live(
                #[trigger] self@.queue[j] as int,
            ) by {
                if j < q.len() {
                    assert(old(self)@.is_live(q[j] as int));
                }
            }
        }
        TaskHandle { id }
    }

    /// Invokes a waker: its task, if it is live and not queued already, goes
    /// to the back of the ready queue. For a task that is finished, cancelled
    /// or unknown, and for one that is queued, nothing happens.
    pub fn wake(&mut self, waker: Waker)
        requires
            old(self).inv(),
        ensures
            final(self).inv(),
            final(self)@ == old(self)@.wake(waker.task),
    {
        let id = waker.task_id();
        if id < self.slots.len() && !self.queued[id] && self.slot_is_live(id) {
            self.queued.set(id, true);
            self.queue.push_back(id);
            proof {
                let q = old(self).queue@;
                assert forall|x: usize| q.push(id).contains(x) <==> (q.contains(x) || x == id) by {
                    lemma_push_contains(q, id, x);
                }
                lemma_push_fresh(q, id);
            }
        }
    }

    /// Records what a poll of the live task `id` returned. A task is polled
    /// after it has left the queue, so one that hands in a result is not in
    /// the queue.
    pub fn settle(&mut self, id: usize, out: Poll<Outcome<K::Output>>, interest: Interest)
        requires
            old(self).inv(),
            old(self)@.is_live(id as int),
            out is Ready ==> !old(self)@.queue.contains(id),
        ensures
            final(self).inv(),
            final(self)@ == old(self)@.settle(id, out, interest),
    {
        match out {
            Poll::Ready(r) => {
                self.slots.set(id, Slot::Finished(r));
                self.alarms.set(id, None);
                proof {
                    assert forall|j: int| 0 <= j < self@.queue.len() implies self@.is_live(
                        #[trigger] self@.queue[j] as int,
                    ) by {
                        assert(old(self)@.is_live(old(self)@.queue[j] as int));
                        assert(old(self)@.queue.contains(old(self)@.queue[j]));
                    }
                }
            },
            Poll::Pending => {
                let alarm = Interest { wake: false, alarm: self.alarms[id] }.merged(interest).alarm;
                self.alarms.set(id, alarm);
                if interest.wake {
                    self.wake(Waker::for_task(id));
                }
            },
        }
    }

    /// The earliest armed alarm, if any.
    pub fn next_deadline(&self) -> (d: Option<u64>)
        ensures
            d == self@.next_alarm(),
    {
        let mut best: Option<u64> = None;
        let mut i: usize = 0;
        while i < self.alarms.len()
            invariant
                i <= self.alarms@.len(),
                best == earliest(self.alarms@.take(i as int)),
            decreases self.alarms@.len() - i,
        {
            proof {
                assert(self.alarms@.take(i + 1).drop_last() =~= self.alarms@.take(i as int));
            }
            best = Interest { wake: false, alarm: best }.merged(
                Interest { wake: false, alarm: self.alarms[i] },
            ).alarm;
            i += 1;
        }
        proof {
            assert(self.alarms@.take(i as int) =~= self.alarms@);
        }
        best
    }

    /// Makes one scheduling decision. If a task is ready and the budget
    /// allows, the task at the front of the queue is polled once, at the
    /// time of the clock, and what it returned is settled. Otherwise nothing
    /// changes, and the result says why nothing could be polled.
    pub fn turn(&mut self) -> (t: Turn)
        requires
            old(self).inv(),
        ensures
            final(self).inv(),
            match t {
                Turn::Polled(id) => old(self)@.polled_front(final(self)@) && id == old(
                    self,
                )@.queue[0],
                Turn::Waiting(d) => {
                    &&& old(self)@.queue.len() == 0
                    &&& old(self)@.next_alarm() == Some(d)
                    &&& final(self)@ == old(self)@
                },
                Turn::Idle => {
                    &&& old(self)@.queue.len() == 0
                    &&& old(self)@.next_alarm() is None
                    &&& final(self)@ == old(self)@
                },
                Turn::Exhausted => {
                    &&& old(self)@.queue.len() > 0
                    &&& old(self)@.budget == 0
                    &&& final(self)@ == old(self)@
                },
            },
    {
        if self.queue.len() == 0 {
            return match self.next_deadline() {
                Some(d) => Turn::Waiting(d),
                None => Turn::Idle,
            };
        }
        if self.budget == 0 {
            return Turn::Exhausted;
        }
        let id = match self.queue.pop_front() {
            Some(id) => id,
            None => { return Turn::Idle; },
        };
        proof {
            let q = old(self)@.queue;
            assert(q[0] == id);
            assert(old(self)@.is_live(q[0] as int));
            assert(self.queue@ =~= q.drop_first());
            lemma_drop_first(q);
        }
        self.queued.set(id, false);
        self.budget = self.budget - 1;
        proof {
            assert forall|j: int| 0 <= j < self@.queue.len() implies self@.is_live(
                #[trigger] self@.queue[j] as int,
            ) by {
                assert(self@.queue[j] == old(self)@.queue[j + 1]);
                assert(old(self)@.is_live(old(self)@.queue[j + 1] as int));
            }
            assert(self@ == old(self)@.pop());
            assert(self@.queue.no_duplicates());
            assert(self@.wf());
            assert forall|i: usize| i < self.queued@.len() implies (#[trigger] self.queued@[i as int])
                == self.queue@.contains(i) by {
                let q = old(self)@.queue;
                assert(self.queue@ == q.drop_first());
                if i != id {
                    assert(q.drop_first().contains(i) <==> q.contains(i));
                    assert(old(self).queued@[i as int] == old(self).queue@.contains(i));
                } else {
                    assert(!q.drop_first().contains(q[0]));
                }
            }
            assert(self.flags_agree());
        }
        let mut cx = Context::new(Waker::for_task(id), self.clock);
        let out = match &mut self.slots[id] {
            Slot::Live(task) => task.poll(&mut cx),
            _ => Poll::Ready(Err(TaskError::CancelledBeforeCompletion)),
        };
        proof {
            let before = old(self)@.slots[id as int]->Live_0;
            if out is Pending {
                let after = self@.slots[id as int]->Live_0;
                assert(self@.slots =~= old(self)@.slots.update(id as int, Slot::Live(after)));
                assert(self@ == old(self)@.pop().with_task(id, after));
            } else {
                let r = out->Ready_0;
                assert(self@.slots.update(id as int, Slot::<K>::Finished(r)) =~= old(
                    self,
                )@.slots.update(id as int, Slot::<K>::Finished(r)));
            }
            assert(self.inv());
        }
        self.settle(id, out, cx.interest());
        Turn::Polled(id)
    }

    /// Lets simulated time pass until the earliest alarm and sets off every
    /// alarm that is then due, in the order of the tasks' identities.
    pub fn advance(&mut self)
        requires
            old(self).inv(),
        ensures
            final(self).inv(),
            final(self)@ == old(self)@.advance(),
    {
        let t = match self.next_deadline() {
            Some(t) => t,
            None => { return ; },
        };
        if self.clock < t {
            self.clock = t;
        }
        let ghost start = self@;
        let n = self.alarms.len();
        let mut i: usize = 0;
        while i < n
            invariant
                self.inv(),
                i <= n,
                n == self@.slots.len(),
                self@ == start.fire(i as nat),
            decreases n - i,
        {
            let due = match self.alarms[i] {
                Some(d) => d <= self.clock,
                None => false,
            };
            if due {
                self.alarms.set(i, None);
                self.wake(Waker::for_task(i));
            }
            i += 1;
        }
    }

    /// Drops a task. Its waker does nothing from now on, and a result that
    /// it left uncollected is dropped with it.
    pub fn cancel(&mut self, handle: TaskHandle)
        requires
            old(self).inv(),
        ensures
            final(self).inv(),
            final(self)@ == old(self)@.cancel(handle.id()),
    {
        let id = handle.id;
        if id >= self.slots.len() {
            return ;
        }
        self.slots.set(id, Slot::Vacant);
        self.alarms.set(id, None);
        if self.queued[id] {
            self.queued.set(id, false);
            let mut pos: usize = 0;
            while pos < self.queue.len() && self.queue[pos] != id
                invariant
                    pos <= self.queue@.len(),
                    self.queue@ == old(self).queue@,
                    self.queue@.contains(id),
                    forall|j: int| 0 <= j < pos ==> self.queue@[j] != id,
                decreases self.queue@.len() - pos,
            {
                pos += 1;
            }
            proof {
                let q = old(self).queue@;
                if pos == q.len() {
                    let j = choose|j: int| 0 <= j < q.len() && q[j] == id;
                    assert(false);
                }
                lemma_remove(q, pos as int);
            }
            self.queue.remove(pos);
        }
        proof {
            let q = old(self).queue@;
            assert(self@.queue == without(q, id));
            assert forall|j: int| 0 <= j < self@.queue.len() implies self@.is_live(
                #[trigger] self@.queue[j] as int,
            ) by {
                let x = self@.queue[j];
                assert(self@.queue.contains(x));
                assert(q.contains(x));
                let k = choose|k: int| 0 <= k < q.len() && q[k] == x;
                assert(old(self)@.is_live(q[k] as int));
            }
        }
    }

    /// Drops every task that has not produced its result.
    pub fn cancel_all(&mut self)
        requires
            old(self).inv(),
        ensures
            final(self).inv(),
            final(self)@ == old(self)@.cancel_all(),
    {
        self.queue.clear();
        let n = self.slots.len();
        let mut i: usize = 0;
        while i < n
            invariant
                i <= n,
                n == old(self).slots@.len(),
                self.slots@.len() == n,
                self.alarms@.len() == n,
                self.queued@.len() == n,
                self.queue@ == Seq::<usize>::empty(),
                self.clock == old(self).clock,
                self.budget == old(self).budget,
                forall|j: int|
                    0 <= j < i ==> (#[trigger] self.slots@[j]) == old(self)@.cancel_all().slots[j],
                forall|j: int| 0 <= j < i ==> (#[trigger] self.alarms@[j]) is None,
                forall|j: int| 0 <= j < i ==> !(#[trigger] self.queued@[j]),
                forall|j: int| i <= j < n ==> (#[trigger] self.slots@[j]) == old(self).slots@[j],
            decreases n - i,
        {
            if self.slot_is_live(i) {
                self.slots.set(i, Slot::Vacant);
            }
            self.alarms.set(i, None);
            self.queued.set(i, false);
            i += 1;
        }
        proof {
            assert(self@.slots =~= old(self)@.cancel_all().slots);
            assert(self@.alarms =~= old(self)@.cancel_all().alarms);
            assert forall|x: usize| !self.queue@.contains(x) by {}
        }
    }

    /// Hands out the stored result of a task, if it has one.
    pub fn take(&mut self, handle: &TaskHandle) -> (r: Option<Outcome<K::Output>>)
        requires
            old(self).inv(),
        ensures
            final(self).inv(),
            final(self)@ == old(self)@.take(handle.id()).0,
            r == old(self)@.take(handle.id()).1,
    {
        let id = handle.id;
        if id >= self.slots.len() {
            return None;
        }
        match &self.slots[id] {
            Slot::Finished(_) => {},
            _ => { return None; },
        }
        let mut slot = Slot::Vacant;
        core::mem::swap(&mut self.slots[id], &mut slot);
        proof {
            assert(self@.slots =~= old(self)@.slots.update(id as int, Slot::Vacant));
            assert forall|j: int| 0 <= j < self@.queue.len() implies self@.is_live(
                #[trigger] self@.queue[j] as int,
            ) by {
                assert(old(self)@.is_live(old(self)@.queue[j] as int));
            }
        }
        match slot {
            Slot::Finished(r) => Some(r),
            _ => None,
        }
    }

    /// Whether some task has not produced its result yet.
    pub fn any_live(&self) -> (b: bool)
        ensures
            b == self@.has_live(),
    {
        let mut i: usize = 0;
        while i < self.slots.len()
            invariant
                i <= self.slots@.len(),
                forall|j: int| 0 <= j < i ==> !self@.is_live(j),
            decreases self.slots@.len() - i,
        {
            if self.slot_is_live(i) {
                assert(self@.is_live(i as int));
                return true;
            }
            i += 1;
        }
        false
    }

    /// Makes one step of a run that waits for the task of `handle`. If the
    /// run stops in this state, the step hands out what the run yields: the
    /// stored result of the task; a cancellation if the task is not there, or
    /// if it is ready and the poll budget is spent, which cancels it; a
    /// deadlock if it is live and nothing is ready or armed. If not, and a
    /// task is ready, the task at the front of the queue is polled. If
    /// nothing is ready, nothing changes, and the step names the time until
    /// which the caller has to let time pass before it calls `advance`.
    pub fn step_until(&mut self, handle: &TaskHandle) -> (s: Step<K::Output>)
        requires
            old(self).inv(),
        ensures
            final(self).inv(),
            match s {
                Step::Done(r) => {
                    &&& old(self)@.halted(Some(handle.id()))
                    &&& final(self)@ == old(self)@.collect(handle.id()).0
                    &&& r == old(self)@.collect(handle.id()).1
                },
                Step::Polled => {
                    &&& !old(self)@.halted(Some(handle.id()))
                    &&& old(self)@.queue.len() > 0
                    &&& old(self)@.turned(final(self)@)
                },
                Step::Sleep(deadline) => {
                    &&& !old(self)@.halted(Some(handle.id()))
                    &&& old(self)@.queue.len() == 0
                    &&& old(self)@.next_alarm() == Some(deadline)
                    &&& old(self)@.turned(old(self)@.advance())
                    &&& final(self)@ == old(self)@
                },
            },
    {
        let id = handle.id;
        if id >= self.slots.len() {
            return Step::Done(Err(TaskError::CancelledBeforeCompletion));
        }
        match self.take(handle) {
            Some(r) => { return Step::Done(r); },
            None => {},
        }
        if !self.slot_is_live(id) {
            return Step::Done(Err(TaskError::CancelledBeforeCompletion));
        }
        match self.turn() {
            Turn::Polled(_) => Step::Polled,
            Turn::Waiting(deadline) => Step::Sleep(deadline),
            Turn::Idle => Step::Done(Err(TaskError::DeadlockDetected)),
            Turn::Exhausted => {
                self.cancel(TaskHandle { id });
                Step::Done(Err(TaskError::CancelledBeforeCompletion))
            },
        }
    }

    /// Runs the cooperative loop until the task of `handle` has produced its
    /// result, which is handed out, or cannot be brought to it: step after
    /// step is made, each a poll of the task at the front of the queue or,
    /// when nothing is ready, the passing of simulated time until the
    /// earliest alarm. The loop stops as soon as the task is no longer live,
    /// or no turn can be made.
    pub fn run_until(&mut self, handle: &TaskHandle) -> (r: Outcome<K::Output>)
        requires
            old(self).inv(),
        ensures
            final(self).inv(),
            exists|mid: ExecutorView<K>, n: nat| #[trigger]
                old(self)@.runs(mid, Some(handle.id()), n) && mid.halted(Some(handle.id()))
                    && final(self)@ == mid.collect(handle.id()).0 && r == mid.collect(
                    handle.id(),
                ).1,
    {
        let ghost target = Some(handle.id());
        let ghost mut n: nat = 0;
        loop
            invariant
                self.inv(),
                old(self)@.runs(self@, target, n),
                target == Some(handle.id()),
            decreases self@.budget, armed(self@.alarms),
        {
            let ghost mid = self@;
            match self.step_until(handle) {
                Step::Done(r) => { return r; },
                Step::Polled => {},
                Step::Sleep(_) => {
                    proof {
                        lemma_advance_disarms(mid);
                    }
                    self.advance();
                },
            }
            proof {
                lemma_runs_on(old(self)@, mid, self@, target, n);
                n = n + 1;
            }
        }
    }

    /// Runs the cooperative loop until no scheduling turn can be made, and
    /// reports whether every task has produced its result.
    pub fn run_all(&mut self) -> (r: Result<(), TaskError>)
        requires
            old(self).inv(),
        ensures
            final(self).inv(),
            exists|mid: ExecutorView<K>, n: nat| #[trigger]
                old(self)@.runs(mid, None, n) && mid.halted(None) && final(self)@
                    == mid.wind_up().0 && r == mid.wind_up().1,
    {
        let ghost target: Option<usize> = None;
        let ghost mut n: nat = 0;
        loop
            invariant
                self.inv(),
                old(self)@.runs(self@, target, n),
                target == None::<usize>,
            decreases self@.budget, armed(self@.alarms),
        {
            let ghost mid = self@;
            match self.turn() {
                Turn::Polled(_) => {},
                Turn::Waiting(_) => {
                    proof {
                        lemma_advance_disarms(mid);
                    }
                    self.advance();
                },
                Turn::Idle => {
                    return if self.any_live() {
                        Err(TaskError::DeadlockDetected)
                    } else {
                        Ok(())
                    };
                },
                Turn::Exhausted => {
                    self.cancel_all();
                    return Err(TaskError::CancelledBeforeCompletion);
                },
            }
            proof {
                let m = n + 1;
                lemma_runs_on(old(self)@, mid, self@, target, n);
                n = m;
            }
        }
    }

    fn slot_is_live(&self, id: usize) -> (b: bool)
        requires
            id < self.slots@.len(),
        ensures
            b == self@.is_live(id as int),
    {
        match &self.slots[id] {
            Slot::Live(_) => true,
            _ => false,
        }
    }
}

/// An element is in `q.push(id)` exactly if it is in `q` or is `id`.
pub proof fn lemma_push_contains(q: Seq<usize>, id: usize, x: usize)
    ensures
        q.push(id).contains(x) <==> (q.contains(x) || x == id),
{
    if q.push(id).contains(x) {
        let j = choose|j: int| 0 <= j < q.push(id).len() && q.push(id)[j] == x;
        if j < q.len() {
            assert(q[j] == x);
        }
    }
    if q.contains(x) {
        let j = choose|j: int| 0 <= j < q.len() && q[j] == x;
        assert(q.push(id)[j] == x);
    }
    if x == id {
        assert(q.push(id)[q.len() as int] == x);
    }
}

/// The state of an executor that holds `task` and nothing else: the task is
/// queued and has not been polled.
pub open spec fn lone<K: TaskUnit>(task: K, clock: u64, budget: u64) -> ExecutorView<K> {
    ExecutorView {
        slots: seq![Slot::Live(task)],
        alarms: seq![None],
        queue: seq![0usize],
        clock,
        budget,
    }
}

/// Runs `task` alone, on an executor of its own that starts at time 0 with
/// the largest poll budget, and hands out what the run yields.
pub fn block_on<K: TaskUnit>(task: K) -> (r: Outcome<K::Output>)
    requires
        task.inv(),
    ensures
        exists|mid: ExecutorView<K>, n: nat| #[trigger]
            lone(task, 0, u64::MAX).runs(mid, Some(0usize), n) && mid.halted(Some(0usize)) && r
                == mid.collect(0).1,
{
    let mut ex: Executor<K> = Executor::new();
    let handle = ex.spawn(task);
    proof {
        assert(ex@.slots =~= lone(task, 0, u64::MAX).slots);
        assert(ex@.alarms =~= lone(task, 0, u64::MAX).alarms);
        assert(ex@.queue =~= lone(task, 0, u64::MAX).queue);
        assert(ex@ == lone(task, 0, u64::MAX));
    }
    ex.run_until(&handle)
}

/// A run of `n` turns that has not stopped is continued by one more turn.
pub proof fn lemma_runs_on<K: TaskUnit>(
    pre: ExecutorView<K>,
    mid: ExecutorView<K>,
    post: ExecutorView<K>,
    target: Option<usize>,
    n: nat,
)
    requires
        pre.runs(mid, target, n),
        !mid.halted(target),
        mid.turned(post),
    ensures
        pre.runs(post, target, n + 1),
{
    let m: nat = n + 1;
    assert(pre.runs(mid, target, (m - 1) as nat) && mid.steps_to(post, target));
    assert(pre.runs(post, target, m));
}

/// Without the element at `pos`, a sequence free of duplicates holds what
/// it held before but for that element, which was nowhere else.
pub proof fn lemma_remove(q: Seq<usize>, pos: int)
    requires
        q.no_duplicates(),
        0 <= pos < q.len(),
    ensures
        q.remove(pos).no_duplicates(),
        q.index_of(q[pos]) == pos,
        !q.remove(pos).contains(q[pos]),
        forall|x: usize| x != q[pos] ==> (q.remove(pos).contains(x) <==> q.contains(x)),
        forall|x: usize| q.remove(pos).contains(x) ==> q.contains(x),
{
    let t = q.remove(pos);
    assert forall|j: int| 0 <= j < t.len() implies t[j] == q[if j < pos {
        j
    } else {
        j + 1
    }] by {}
    assert forall|i: int, j: int| 0 <= i < t.len() && 0 <= j < t.len() && i != j implies t[i]
        != t[j] by {
        let a = if i < pos { i } else { i + 1 };
        let b = if j < pos { j } else { j + 1 };
        assert(t[i] == q[a] && t[j] == q[b]);
    }
    if t.contains(q[pos]) {
        let j = choose|j: int| 0 <= j < t.len() && t[j] == q[pos];
        let a = if j < pos { j } else { j + 1 };
        assert(t[j] == q[a]);
    }
    assert forall|x: usize| x != q[pos] implies (t.contains(x) <==> q.contains(x)) by {
        if t.contains(x) {
            let j = choose|j: int| 0 <= j < t.len() && t[j] == x;
            let a = if j < pos { j } else { j + 1 };
            assert(q[a] == x);
        }
        if q.contains(x) {
            let j = choose|j: int| 0 <= j < q.len() && q[j] == x;
            let a = if j < pos { j } else { j - 1 };
            assert(t[a] == x);
        }
    }
    assert forall|x: usize| t.contains(x) implies q.contains(x) by {
        let j = choose|j: int| 0 <= j < t.len() && t[j] == x;
        let a = if j < pos { j } else { j + 1 };
        assert(q[a] == x);
    }
}

/// The earliest alarm is one of the armed alarms and no later than any of
/// them; there is none exactly if no alarm is armed.
pub proof fn lemma_earliest(alarms: Seq<Option<u64>>)
    ensures
        match earliest(alarms) {
            None => forall|i: int| 0 <= i < alarms.len() ==> (#[trigger] alarms[i]) is None,
            Some(t) => {
                &&& exists|k: int| 0 <= k < alarms.len() && #[trigger] alarms[k] == Some(t)
                &&& forall|i: int|
                    0 <= i < alarms.len() && (#[trigger] alarms[i]) is Some ==> t <= alarms[i]->0
            },
        },
    decreases alarms.len(),
{
    if alarms.len() > 0 {
        let init = alarms.drop_last();
        lemma_earliest(init);
        assert forall|i: int| 0 <= i < init.len() implies init[i] == alarms[i] by {}
        match earliest(alarms) {
            None => {
                assert forall|i: int| 0 <= i < alarms.len() implies (#[trigger] alarms[i])
                    is None by {
                    if i < init.len() {
                        assert(init[i] is None);
                    }
                }
            },
            Some(t) => {
                if earliest(init) == Some(t) {
                    let k = choose|k: int| 0 <= k < init.len() && #[trigger] init[k] == Some(t);
                    assert(alarms[k] == Some(t));
                } else {
                    assert(alarms[alarms.len() - 1] == Some(t));
                }
                assert forall|i: int| 0 <= i < alarms.len() && (#[trigger] alarms[i])
                    is Some implies t <= alarms[i]->0 by {
                    if i < init.len() {
                        assert(init[i] is Some);
                    }
                }
            },
        }
    }
}

/// Disarming alarms, and arming none, does not raise the number of armed
/// alarms, and lowers it if the alarm at `k` was armed and is not any more.
pub proof fn lemma_armed_shrinks(a: Seq<Option<u64>>, b: Seq<Option<u64>>, k: int)
    requires
        a.len() == b.len(),
        forall|i: int| 0 <= i < a.len() && (#[trigger] b[i]) is Some ==> a[i] is Some,
    ensures
        armed(b) <= armed(a),
        0 <= k < a.len() && a[k] is Some && b[k] is None ==> armed(b) < armed(a),
    decreases a.len(),
{
    if a.len() > 0 {
        let a0 = a.drop_last();
        let b0 = b.drop_last();
        assert forall|i: int| 0 <= i < a0.len() && (#[trigger] b0[i]) is Some implies a0[i]
            is Some by {
            assert(b0[i] == b[i] && a0[i] == a[i]);
        }
        lemma_armed_shrinks(a0, b0, k);
        assert(b.last() is Some ==> a.last() is Some) by {
            assert(b[b.len() - 1] == b.last());
        }
        if 0 <= k < a0.len() {
            assert(a0[k] == a[k] && b0[k] == b[k]);
        }
    }
}

/// Setting off the due alarms of the first `n` tasks disarms exactly those
/// and changes neither the slots, the clock nor the budget.
pub proof fn lemma_fire<K: TaskUnit>(s: ExecutorView<K>, n: nat)
    requires
        s.alarms.len() == s.slots.len(),
        n <= s.slots.len(),
    ensures
        s.fire(n).slots == s.slots,
        s.fire(n).clock == s.clock,
        s.fire(n).budget == s.budget,
        s.fire(n).alarms.len() == s.alarms.len(),
        forall|i: int|
            0 <= i < s.alarms.len() ==> #[trigger] s.fire(n).alarms[i] == if i < n && s.due(i) {
                None
            } else {
                s.alarms[i]
            },
    decreases n,
{
    if n > 0 {
        lemma_fire(s, (n - 1) as nat);
        let p = s.fire((n - 1) as nat);
        assert(p.alarms[n - 1] == s.alarms[n - 1]);
        assert(p.due(n - 1) == s.due(n - 1));
    }
}

/// The passing of time until the earliest alarm leaves fewer alarms armed,
/// and the poll budget as it was.
pub proof fn lemma_advance_disarms<K: TaskUnit>(s: ExecutorView<K>)
    requires
        s.alarms.len() == s.slots.len(),
        s.next_alarm() is Some,
    ensures
        armed(s.advance().alarms) < armed(s.alarms),
        s.advance().budget == s.budget,
        s.advance().slots == s.slots,
        s.advance().clock >= s.clock,
        s.advance().clock >= s.next_alarm()->0,
{
    let t = s.next_alarm()->0;
    lemma_earliest(s.alarms);
    let k = choose|k: int| 0 <= k < s.alarms.len() && #[trigger] s.alarms[k] == Some(t);
    let timed = ExecutorView { clock: if s.clock < t { t } else { s.clock }, ..s };
    lemma_fire(timed, s.slots.len());
    assert(timed.due(k));
    assert(s.advance().alarms[k] is None);
    lemma_armed_shrinks(s.alarms, s.advance().alarms, k);
}

/// Without its first element, a sequence free of duplicates holds what it
/// held before but for that element.
pub proof fn lemma_drop_first(q: Seq<usize>)
    requires
        q.no_duplicates(),
        q.len() > 0,
    ensures
        q.drop_first().no_duplicates(),
        !q.drop_first().contains(q[0]),
        forall|x: usize| x != q[0] ==> (q.drop_first().contains(x) <==> q.contains(x)),
{
    let t = q.drop_first();
    assert forall|i: int, j: int| 0 <= i < t.len() && 0 <= j < t.len() && i != j implies t[i]
        != t[j] by {
        assert(t[i] == q[i + 1] && t[j] == q[j + 1]);
    }
    if t.contains(q[0]) {
        let j = choose|j: int| 0 <= j < t.len() && t[j] == q[0];
        assert(q[j + 1] == q[0]);
    }
    assert forall|x: usize| x != q[0] implies (t.contains(x) <==> q.contains(x)) by {
        if t.contains(x) {
            let j = choose|j: int| 0 <= j < t.len() && t[j] == x;
            assert(q[j + 1] == x);
        }
        if q.contains(x) {
            let j = choose|j: int| 0 <= j < q.len() && q[j] == x;
            assert(t[j - 1] == x);
        }
    }
}

/// Pushing an element that is not there keeps a sequence free of duplicates.
pub proof fn lemma_push_fresh(q: Seq<usize>, id: usize)
    requires
        q.no_duplicates(),
        !q.contains(id),
    ensures
        q.push(id).no_duplicates(),
{
    assert forall|i: int, j: int|
        0 <= i < q.push(id).len() && 0 <= j < q.push(id).len() && i != j implies q.push(id)[i]
        != q.push(id)[j] by {
        if i < q.len() && j < q.len() {
        } else if i < q.len() {
            assert(q.contains(q[i]));
        } else if j < q.len() {
            assert(q.contains(q[j]));
        }
    }
}

} // verus!
