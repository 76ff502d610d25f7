//! The leaf task: it completes with a fixed result once a delay has passed.

use crate::context::{Context, Interest};
use crate::poll::{Fault, Outcome, Poll, TaskError};
use crate::unit::TaskUnit;
use vstd::prelude::*;

verus! {

/// `now + delay`, held at the largest time the clock can show.
pub open spec fn deadline_after(now: u64, delay: u64) -> u64 {
    if now + delay <= u64::MAX {
        (now + delay) as u64
    } else {
        u64::MAX
    }
}

/// What a leaf holds: the delay it was made with, its deadline once that is
/// fixed, and the result it has not handed out yet.
pub ghost struct LeafView<T> {
    /// The time that must pass from the first poll on.
    pub delay: u64,
    /// The simulated time of completion, fixed when the leaf is made with a
    /// starting time, and else by its first poll.
    pub deadline: Option<u64>,
    /// The value or fault to hand out; `None` once it has been handed out.
    pub payload: Option<Result<T, Fault>>,
}

impl<T> LeafView<T> {
    /// The time at which a leaf polled at `now` completes.
    pub open spec fn due(self, now: u64) -> u64 {
        match self.deadline {
            Some(d) => d,
            None => deadline_after(now, self.delay),
        }
    }

    /// The result the leaf hands out.
    pub open spec fn outcome(self) -> Outcome<T>
        recommends
            self.payload is Some,
    {
        match self.payload->0 {
            Ok(v) => Ok(v),
            Err(fault) => Err(TaskError::TaskFailure(fault)),
        }
    }
}

/// A task unit that completes, with a value or with a fault, once its
/// deadline has come: `delay` units of simulated time after it was made,
/// if it was made with a starting time, and else after its first poll.
pub struct Leaf<T> {
    delay: u64,
    deadline: Option<u64>,
    payload: Option<Result<T, Fault>>,
}

impl<T> View for Leaf<T> {
    type V = LeafView<T>;

    closed spec fn view(&self) -> LeafView<T> {
        LeafView { delay: self.delay, deadline: self.deadline, payload: self.payload }
    }
}

impl<T> Leaf<T> {
    /// A leaf that completes with `value` once `delay` has passed.
    pub fn after(delay: u64, value: T) -> (leaf: Leaf<T>)
        ensures
            leaf@ == (LeafView { delay, deadline: None, payload: Some(Ok(value)) }),
    {
        Leaf { delay, deadline: None, payload: Some(Ok(value)) }
    }

    /// A leaf made at time `now` that completes with `value` once `delay`
    /// has passed from then on: its deadline is fixed at once.
    pub fn made_at(now: u64, delay: u64, value: T) -> (leaf: Leaf<T>)
        ensures
            leaf@ == (LeafView {
                delay,
                deadline: Some(deadline_after(now, delay)),
                payload: Some(Ok(value)),
            }),
    {
        let deadline = if delay <= u64::MAX - now {
            now + delay
        } else {
            u64::MAX
        };
        Leaf { delay, deadline: Some(deadline), payload: Some(Ok(value)) }
    }

    /// A leaf that completes with `value` at its first poll.
    pub fn ready(value: T) -> (leaf: Leaf<T>)
        ensures
            leaf@ == (LeafView { delay: 0, deadline: None, payload: Some(Ok(value)) }),
    {
        Leaf { delay: 0, deadline: None, payload: Some(Ok(value)) }
    }

    /// A leaf whose body faults with `fault` once `delay` has passed.
    pub fn failing(delay: u64, fault: Fault) -> (leaf: Leaf<T>)
        ensures
            leaf@ == (LeafView::<T> { delay, deadline: None, payload: Some(Err(fault)) }),
    {
        Leaf { delay, deadline: None, payload: Some(Err(fault)) }
    }

    /// The simulated time of completion, once it is fixed.
    pub fn deadline(&self) -> (d: Option<u64>)
        ensures
            d == self@.deadline,
    {
        self.deadline
    }

    /// Whether the leaf has handed out its result.
    pub fn is_finished(&self) -> (b: bool)
        ensures
            b == self.finished(),
    {
        self.payload.is_none()
    }
}

impl<T> TaskUnit for Leaf<T> {
    type Output = T;

    open spec fn inv(&self) -> bool {
        true
    }

    open spec fn finished(&self) -> bool {
        self@.payload is None
    }

    open spec fn interest(&self) -> Interest {
        if self@.payload is Some && self@.deadline is Some {
            Interest { wake: false, alarm: self@.deadline }
        } else {
            Interest::nothing()
        }
    }

    open spec fn resolves(&self, now: u64, out: Outcome<T>) -> bool {
        &&& self@.payload is Some
        &&& now >= self@.due(now)
        &&& out == self@.outcome()
    }

    open spec fn suspends(&self, now: u64, post: &Self) -> bool {
        &&& self@.payload is Some
        &&& now < self@.due(now)
        &&& post@ == (LeafView { deadline: Some(self@.due(now)), ..self@ })
    }

    /// Completes if the deadline has come, and else asks to be woken at it.
    /// A finished leaf changes nothing and reports the double poll.
    fn poll(&mut self, cx: &mut Context) -> (out: Poll<Outcome<T>>)
        ensures
            old(self).finished() ==> final(self)@ == old(self)@,
            !old(self).finished() ==> final(self)@.deadline == Some(old(self)@.due(old(cx).now())),
            !old(self).finished() ==> final(self)@.delay == old(self)@.delay,
            out is Pending <==> !old(self).finished() && old(cx).now() < old(self)@.due(
                old(cx).now(),
            ),
            out is Ready ==> final(self)@.payload is None && final(cx).interest() == old(
                cx,
            ).interest(),
    {
        if self.payload.is_none() {
            return Poll::Ready(Err(TaskError::DoublePollAfterReady));
        }
        let now = cx.now();
        let due = match self.deadline {
            Some(d) => d,
            None => if self.delay <= u64::MAX - now {
                now + self.delay
            } else {
                u64::MAX
            },
        };
        self.deadline = Some(due);
        if now >= due {
            match self.payload.take() {
                Some(Ok(v)) => Poll::Ready(Ok(v)),
                Some(Err(fault)) => Poll::Ready(Err(TaskError::TaskFailure(fault))),
                None => Poll::Ready(Err(TaskError::DoublePollAfterReady)),
            }
        } else {
            cx.wake_at(due);
            Poll::Pending
        }
    }
}

} // verus!
