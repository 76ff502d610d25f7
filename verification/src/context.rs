//! The per-poll context: the waker of the polled task, the simulated time, and
//! the requests the task has left with the scheduler during the call.

use vstd::prelude::*;

verus! {

/// The earlier of two optional deadlines; an absent one never comes.
pub open spec fn earlier(a: Option<u64>, b: Option<u64>) -> Option<u64> {
    match (a, b) {
        (None, _) => b,
        (_, None) => a,
        (Some(x), Some(y)) => if x <= y { a } else { b },
    }
}

/// What a suspended task has asked of the scheduler.
#[derive(Clone, Copy, Debug, PartialEq, Eq, Structural)]
pub struct Interest {
    /// The task asked to be polled again in the next scheduling pass.
    pub wake: bool,
    /// The earliest simulated time at which the task asked to be woken.
    pub alarm: Option<u64>,
}

impl Interest {
    /// No request at all.
    pub open spec fn nothing() -> Interest {
        Interest { wake: false, alarm: None }
    }

    /// Both requests together: woken if either asked, at the earlier alarm.
    pub open spec fn merge(self, other: Interest) -> Interest {
        Interest { wake: self.wake || other.wake, alarm: earlier(self.alarm, other.alarm) }
    }

    /// The empty request.
    pub fn none() -> (r: Interest)
        ensures
            r == Interest::nothing(),
    {
        Interest { wake: false, alarm: None }
    }

    /// Joins two requests into one.
    pub fn merged(self, other: Interest) -> (r: Interest)
        ensures
            r == self.merge(other),
    {
        let alarm = match (self.alarm, other.alarm) {
            (None, b) => b,
            (a, None) => a,
            (Some(x), Some(y)) => if x <= y { Some(x) } else { Some(y) },
        };
        Interest { wake: self.wake || other.wake, alarm }
    }
}

/// A handle that names one task of an executor. Handing it to
/// `Executor::wake` schedules that task for another poll.
#[derive(Clone, Copy, Debug, PartialEq, Eq, Structural)]
pub struct Waker {
    /// The identity of the task to wake.
    pub task: usize,
}

impl Waker {
    /// A waker for the task with this identity.
    pub fn for_task(task: usize) -> (w: Waker)
        ensures
            w.task == task,
    {
        Waker { task }
    }

    /// The identity of the task this waker schedules.
    pub fn task_id(&self) -> (id: usize)
        ensures
            id == self.task,
    {
        self.task
    }
}

/// The value a task unit is polled with. It lives for one poll call.
pub struct Context {
    waker: Waker,
    now: u64,
    interest: Interest,
}

impl Context {
    /// The waker of the task being polled.
    pub closed spec fn spec_waker(&self) -> Waker {
        self.waker
    }

    /// The simulated time of the poll.
    pub closed spec fn spec_now(&self) -> u64 {
        self.now
    }

    /// The requests made through this context so far.
    pub closed spec fn spec_interest(&self) -> Interest {
        self.interest
    }

    /// A context for polling the task of `waker` at time `now`, with no
    /// request made yet.
    pub fn new(waker: Waker, now: u64) -> (cx: Context)
        ensures
            cx.waker() == waker,
            cx.now() == now,
            cx.interest() == Interest::nothing(),
    {
        Context { waker, now, interest: Interest { wake: false, alarm: None } }
    }

    /// The waker of the task being polled; a task may keep a copy.
    #[verifier::when_used_as_spec(spec_waker)]
    pub fn waker(&self) -> (w: Waker)
        ensures
            w == self.waker(),
    {
        self.waker
    }

    /// The simulated time of the poll.
    #[verifier::when_used_as_spec(spec_now)]
    pub fn now(&self) -> (t: u64)
        ensures
            t == self.now(),
    {
        self.now
    }

    /// The requests made through this context so far.
    #[verifier::when_used_as_spec(spec_interest)]
    pub fn interest(&self) -> (i: Interest)
        ensures
            i == self.interest(),
    {
        self.interest
    }

    /// Asks for another poll in the next scheduling pass.
    pub fn wake_by_ref(&mut self)
        ensures
            final(self).waker() == old(self).waker(),
            final(self).now() == old(self).now(),
            final(self).interest() == old(self).interest().merge(
                Interest { wake: true, alarm: None },
            ),
    {
        self.interest.wake = true;
    }

    /// Asks to be woken once the simulated time has reached `deadline`.
    pub fn wake_at(&mut self, deadline: u64)
        ensures
            final(self).waker() == old(self).waker(),
            final(self).now() == old(self).now(),
            final(self).interest() == old(self).interest().merge(
                Interest { wake: false, alarm: Some(deadline) },
            ),
    {
        self.interest = self.interest.merged(Interest { wake: false, alarm: Some(deadline) });
    }

    /// A context for polling a child of the current task: the same waker and
    /// time, and no request made yet.
    pub fn child(&self) -> (cx: Context)
        ensures
            cx.waker() == self.waker(),
            cx.now() == self.now(),
            cx.interest() == Interest::nothing(),
    {
        Context { waker: self.waker, now: self.now, interest: Interest { wake: false, alarm: None } }
    }

    /// Takes over the requests that `interest` holds.
    pub fn absorb(&mut self, interest: Interest)
        ensures
            final(self).waker() == old(self).waker(),
            final(self).now() == old(self).now(),
            final(self).interest() == old(self).interest().merge(interest),
    {
        self.interest = self.interest.merged(interest);
    }
}

} // verus!
