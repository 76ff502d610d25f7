//! Sequential composition: a first unit, and a second one that is built
//! from the first one's value only once that value is there.

use crate::context::{Context, Interest};
use crate::poll::{Outcome, Poll, TaskError};
use crate::unit::{may_resolve, TaskUnit};
use vstd::prelude::*;

verus! {

/// A chain as a mathematical value: the phase it is in.
pub ghost enum ChainView<A, F, B> {
    /// The first unit runs; the continuation has not been invoked.
    First(A, F),
    /// The continuation has been invoked and the unit it built runs.
    Second(B),
    /// The chain has produced its result.
    Done,
}

/// A task unit that runs `A` and then the unit that `F` builds from the
/// value of `A`.
pub struct Chain<A, F, B> {
    first: Option<A>,
    next: Option<F>,
    second: Option<B>,
}

impl<A, F, B> View for Chain<A, F, B> {
    type V = ChainView<A, F, B>;

    closed spec fn view(&self) -> ChainView<A, F, B> {
        if self.first is Some && self.next is Some {
            ChainView::First(self.first->0, self.next->0)
        } else if self.second is Some {
            ChainView::Second(self.second->0)
        } else {
            ChainView::Done
        }
    }
}

/// Composes `first` with the continuation `f`: the unit that `f` builds
/// from the value of `first` runs once `first` has completed.
pub fn chain<A: TaskUnit, B: TaskUnit, F: FnOnce(A::Output) -> B>(first: A, f: F) -> (c: Chain<
    A,
    F,
    B,
>)
    requires
        first.inv(),
        forall|v: A::Output| #[trigger] call_requires(f, (v,)),
        forall|v: A::Output, b: B| #[trigger] call_ensures(f, (v,), b) ==> b.inv(),
    ensures
        c.inv(),
        c@ == ChainView::<A, F, B>::First(first, f),
{
    Chain { first: Some(first), next: Some(f), second: None }
}

impl<A: TaskUnit, B: TaskUnit, F: FnOnce(A::Output) -> B> Chain<A, F, B> {
    /// The fields hold one phase, and no more.
    pub closed spec fn one_phase(&self) -> bool {
        &&& self.first is Some <==> self.next is Some
        &&& self.first is Some ==> self.second is None
    }

    /// Gives the composition up. The continuation comes back if it has not
    /// been invoked, which is so exactly while the first unit runs.
    pub fn cancel(self) -> (f: Option<F>)
        requires
            self.inv(),
        ensures
            f == match self@ {
                ChainView::First(_, f) => Some(f),
                _ => None,
            },
    {
        self.next
    }
}

impl<A: TaskUnit, B: TaskUnit, F: FnOnce(A::Output) -> B> TaskUnit for Chain<A, F, B> {
    type Output = B::Output;

    open spec fn inv(&self) -> bool {
        &&& self.one_phase()
        &&& match self@ {
            ChainView::First(a, f) => {
                &&& a.inv()
                &&& forall|v: A::Output| #[trigger] call_requires(f, (v,))
                &&& forall|v: A::Output, b: B| #[trigger] call_ensures(f, (v,), b) ==> b.inv()
            },
            ChainView::Second(b) => b.inv(),
            ChainView::Done => true,
        }
    }

    open spec fn finished(&self) -> bool {
        self@ is Done
    }

    open spec fn interest(&self) -> Interest {
        match self@ {
            ChainView::First(a, _) => a.interest(),
            ChainView::Second(b) => b.interest(),
            ChainView::Done => Interest::nothing(),
        }
    }

    open spec fn resolves(&self, now: u64, out: Outcome<B::Output>) -> bool {
        match self@ {
            ChainView::First(a, f) => {
                ||| out is Err && may_resolve(&a, now, Err::<A::Output, TaskError>(out->Err_0))
                ||| exists|v: A::Output, b: B|
                    {
                        &&& may_resolve(&a, now, Ok::<A::Output, TaskError>(v))
                        &&& #[trigger] call_ensures(f, (v,), b)
                        &&& may_resolve(&b, now, out)
                    }
            },
            ChainView::Second(b) => may_resolve(&b, now, out),
            ChainView::Done => false,
        }
    }

    open spec fn suspends(&self, now: u64, post: &Self) -> bool {
        match self@ {
            ChainView::First(a, f) => match post@ {
                ChainView::First(a2, f2) => f2 == f && !a.finished() && a.suspends(now, &a2),
                ChainView::Second(b2) => exists|v: A::Output, b: B|
                    {
                        &&& may_resolve(&a, now, Ok::<A::Output, TaskError>(v))
                        &&& #[trigger] call_ensures(f, (v,), b)
                        &&& !b.finished()
                        &&& b.suspends(now, &b2)
                    },
                ChainView::Done => false,
            },
            ChainView::Second(b) => post@ matches ChainView::Second(b2) && !b.finished()
                && b.suspends(now, &b2),
            ChainView::Done => false,
        }
    }

    /// While the first unit runs, polls it; once it hands out its value,
    /// invokes the continuation with that value and polls what it built, in
    /// the same call and from then on. A failure of the first unit ends the
    /// chain, and the continuation is dropped without having been invoked.
    fn poll(&mut self, cx: &mut Context) -> (out: Poll<Outcome<B::Output>>)
        ensures
            old(self)@ is Done ==> final(self)@ is Done,
            out is Ready ==> final(cx).interest() == old(cx).interest(),
    {
        if self.first.is_some() {
            let ghost f0 = self.next->0;
            proof {
                assert(self@ == ChainView::<A, F, B>::First(self.first->0, self.next->0));
                assert(self@->First_1 == f0);
            }
            let mut a = self.first.take().unwrap();
            let mut first_cx = cx.child();
            let polled = a.poll(&mut first_cx);
            match polled {
                Poll::Pending => {
                    cx.absorb(first_cx.interest());
                    self.first = Some(a);
                    Poll::Pending
                },
                Poll::Ready(Err(e)) => {
                    self.next = None;
                    Poll::Ready(Err(e))
                },
                Poll::Ready(Ok(v)) => {
                    let f = self.next.take().unwrap();
                    proof {
                        assert(f == f0);
                        assert(call_requires(f, (v,)));
                    }
                    let mut b = f(v);
                    let ghost built = b;
                    let mut second_cx = cx.child();
                    let polled = b.poll(&mut second_cx);
                    match polled {
                        Poll::Pending => {
                            cx.absorb(second_cx.interest());
                            self.second = Some(b);
                            proof {
                                assert(call_ensures(f, (v,), built));
                            }
                            Poll::Pending
                        },
                        Poll::Ready(r) => {
                            proof {
                                assert(call_ensures(f, (v,), built));
                            }
                            Poll::Ready(r)
                        },
                    }
                },
            }
        } else if self.second.is_some() {
            let mut b = self.second.take().unwrap();
            let mut second_cx = cx.child();
            let polled = b.poll(&mut second_cx);
            match polled {
                Poll::Pending => {
                    cx.absorb(second_cx.interest());
                    self.second = Some(b);
                    Poll::Pending
                },
                Poll::Ready(r) => Poll::Ready(r),
            }
        } else {
            Poll::Ready(Err(TaskError::DoublePollAfterReady))
        }
    }
}

} // verus!
