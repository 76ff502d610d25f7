//! A unit that gives way to the other ready tasks a number of times before
//! it completes.

use crate::context::{Context, Interest};
use crate::poll::{Outcome, Poll, TaskError};
use crate::unit::TaskUnit;
use vstd::prelude::*;

verus! {

/// What a yielding unit holds.
pub ghost struct YieldView<T> {
    /// How many more polls it answers with `Pending`.
    pub turns: u64,
    /// The value to hand out; `None` once it has been handed out.
    pub value: Option<T>,
}

/// A task unit that answers its first `turns` polls with `Pending`, each
/// time asking to be polled again in the next scheduling pass, and the poll
/// after those with its value.
pub struct YieldNow<T> {
    turns: u64,
    value: Option<T>,
}

impl<T> View for YieldNow<T> {
    type V = YieldView<T>;

    closed spec fn view(&self) -> YieldView<T> {
        YieldView { turns: self.turns, value: self.value }
    }
}

impl<T> YieldNow<T> {
    /// A unit that gives way `turns` times and then completes with `value`.
    pub fn new(turns: u64, value: T) -> (unit: YieldNow<T>)
        ensures
            unit@ == (YieldView { turns, value: Some(value) }),
    {
        YieldNow { turns, value: Some(value) }
    }

    /// How many more polls the unit answers with `Pending`.
    pub fn turns_left(&self) -> (n: u64)
        ensures
            n == self@.turns,
    {
        self.turns
    }
}

impl<T> TaskUnit for YieldNow<T> {
    type Output = T;

    open spec fn inv(&self) -> bool {
        true
    }

    open spec fn finished(&self) -> bool {
        self@.value is None
    }

    open spec fn interest(&self) -> Interest {
        Interest { wake: true, alarm: None }
    }

    open spec fn resolves(&self, now: u64, out: Outcome<T>) -> bool {
        &&& self@.turns == 0
        &&& self@.value is Some
        &&& out == Ok::<T, TaskError>(self@.value->0)
    }

    open spec fn suspends(&self, now: u64, post: &Self) -> bool {
        &&& self@.turns > 0
        &&& self@.value is Some
        &&& post@ == (YieldView { turns: (self@.turns - 1) as u64, ..self@ })
    }

    /// Gives way if a turn is left, and else completes. A finished unit
    /// changes nothing and reports the double poll.
    fn poll(&mut self, cx: &mut Context) -> (out: Poll<Outcome<T>>)
        ensures
            old(self).finished() ==> final(self)@ == old(self)@,
            out is Pending <==> !old(self).finished() && old(self)@.turns > 0,
            out is Ready ==> final(cx).interest() == old(cx).interest(),
            out is Ready ==> final(self)@ == (YieldView { value: None, ..old(self)@ }),
    {
        if self.value.is_none() {
            return Poll::Ready(Err(TaskError::DoublePollAfterReady));
        }
        if self.turns > 0 {
            self.turns = self.turns - 1;
            cx.wake_by_ref();
            Poll::Pending
        } else {
            match self.value.take() {
                Some(v) => Poll::Ready(Ok(v)),
                None => Poll::Ready(Err(TaskError::DoublePollAfterReady)),
            }
        }
    }
}

} // verus!
