//! A unit that wraps a sleeping leaf and forwards every poll to it.

use crate::context::{Context, Interest};
use crate::leaf::{deadline_after, Leaf, LeafView};
use crate::poll::{Fault, Outcome, Poll, TaskError};
use crate::unit::TaskUnit;
use vstd::prelude::*;

verus! {

/// A pause: it completes, without a value, once a delay has passed from the
/// time at which it was made. It owns a leaf and hands every poll on to it.
pub struct Delay {
    inner: Leaf<()>,
}

impl Delay {
    /// The leaf that the pause forwards to.
    pub closed spec fn sleep(&self) -> Leaf<()> {
        self.inner
    }

    /// The simulated time at which the pause ends.
    pub open spec fn until(&self) -> u64 {
        self.sleep()@.deadline->0
    }

    /// A pause of `delay` units of simulated time, made at time `now`: it
    /// ends at `now + delay`, whenever it is polled first. Nothing has been
    /// polled and nothing has been asked of any scheduler.
    pub fn new(now: u64, delay: u64) -> (d: Delay)
        ensures
            d.inv(),
            d.sleep()@ == (LeafView {
                delay,
                deadline: Some(deadline_after(now, delay)),
                payload: Some(Ok::<(), Fault>(())),
            }),
            d.until() == deadline_after(now, delay),
            !d.finished(),
    {
        Delay { inner: Leaf::made_at(now, delay, ()) }
    }

    /// The simulated time at which the pause ends.
    pub fn deadline(&self) -> (t: u64)
        requires
            self.inv(),
        ensures
            t == self.until(),
    {
        match self.inner.deadline() {
            Some(t) => t,
            None => 0,
        }
    }
}

impl TaskUnit for Delay {
    type Output = ();

    /// The leaf has its deadline, and what it holds is no fault.
    open spec fn inv(&self) -> bool {
        &&& self.sleep()@.deadline is Some
        &&& self.sleep()@.payload is None || self.sleep()@.payload == Some(Ok::<(), Fault>(()))
    }

    open spec fn finished(&self) -> bool {
        self.sleep()@.payload is None
    }

    open spec fn interest(&self) -> Interest {
        Interest { wake: false, alarm: Some(self.until()) }
    }

    open spec fn resolves(&self, now: u64, out: Outcome<()>) -> bool {
        &&& self.sleep()@.payload is Some
        &&& now >= self.until()
        &&& out == Ok::<(), TaskError>(())
    }

    open spec fn suspends(&self, now: u64, post: &Self) -> bool {
        &&& self.sleep()@.payload is Some
        &&& now < self.until()
        &&& post.sleep()@ == self.sleep()@
    }

    /// Polls the leaf with the same context and hands its answer on: the
    /// pause is over exactly when the time of the poll has reached its
    /// deadline.
    fn poll(&mut self, cx: &mut Context) -> (out: Poll<Outcome<()>>)
        ensures
            out is Pending <==> !old(self).finished() && old(cx).now() < old(self).until(),
            !old(self).finished() && old(cx).now() >= old(self).until() ==> out == Poll::Ready(
                Ok::<(), TaskError>(()),
            ),
            final(self).until() == old(self).until(),
            out is Ready ==> final(cx).interest() == old(cx).interest(),
    {
        match self.inner.poll(cx) {
            Poll::Pending => Poll::Pending,
            Poll::Ready(Ok(_)) => Poll::Ready(Ok(())),
            Poll::Ready(Err(e)) => Poll::Ready(Err(e)),
        }
    }
}

} // verus!
