//! The poll contract that every schedulable unit of work implements.

use crate::context::{Context, Interest};
use crate::poll::{Outcome, Poll, TaskError};
use vstd::prelude::*;

verus! {

/// A resumable computation: each poll either reports `Pending`, having left a
/// request to be woken, or `Ready` with the result, after which the unit is
/// finished and answers every further poll with `DoublePollAfterReady`.
pub trait TaskUnit: Sized {
    /// What the unit produces when it succeeds.
    type Output;

    /// The unit's state is well formed.
    spec fn inv(&self) -> bool;

    /// The unit has produced its result and must not be polled again.
    spec fn finished(&self) -> bool;

    /// What the unit, while suspended, asked of the scheduler at its latest
    /// poll.
    spec fn interest(&self) -> Interest;

    /// A poll of this unfinished unit at time `now` may return `Ready(out)`.
    spec fn resolves(&self, now: u64, out: Outcome<Self::Output>) -> bool;

    /// A poll of this unfinished unit at time `now` may return `Pending` and
    /// leave the unit as `post`.
    spec fn suspends(&self, now: u64, post: &Self) -> bool;

    /// Attempts to make progress at the time that `cx` gives.
    fn poll(&mut self, cx: &mut Context) -> (out: Poll<Outcome<Self::Output>>)
        requires
            old(self).inv(),
        ensures
            final(self).inv(),
            final(cx).now() == old(cx).now(),
            final(cx).waker() == old(cx).waker(),
            match out {
                Poll::Ready(r) => {
                    &&& final(self).finished()
                    &&& old(self).finished() ==> r == Err::<Self::Output, TaskError>(
                        TaskError::DoublePollAfterReady,
                    )
                    &&& !old(self).finished() ==> old(self).resolves(old(cx).now(), r)
                },
                Poll::Pending => {
                    &&& !old(self).finished()
                    &&& !final(self).finished()
                    &&& old(self).suspends(old(cx).now(), final(self))
                    &&& final(cx).interest() == old(cx).interest().merge(final(self).interest())
                },
            },
    ;
}

/// A poll of `unit` at time `now` may return `Ready(out)`: the double-poll
/// error if the unit is finished, else a result that the unit resolves to.
pub open spec fn may_resolve<K: TaskUnit>(unit: &K, now: u64, out: Outcome<K::Output>) -> bool {
    if unit.finished() {
        out == Err::<K::Output, TaskError>(TaskError::DoublePollAfterReady)
    } else {
        unit.resolves(now, out)
    }
}

} // verus!
